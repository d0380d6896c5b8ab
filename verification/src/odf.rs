//! OpenDocument viewer support. ODT (text) and ODP (presentation) lower into
//! [`Block`]s; ODS (spreadsheet) yields named sheets of cell strings for the
//! grid renderer. Reads `content.xml` from the package zip.
//!
//! Each parser is a step function over the XML token stream; its contract is the
//! fold of the matching spec step over [`xml_events`] of `content.xml`.

use vstd::prelude::*;
use vstd::string::StringSliceAdditionalSpecFns;
use crate::chars::{
    float_text, is_float_text, append_chars, blank, chars_of, copy_range, dec, dec_chars, is_blank, parse_unsigned,
    parse_unsigned_chars, string_of, trim, trim_chars,
};
use crate::flow::{
    Block, BlockView, Span, SpanSize, SpanSizeView, SpanView, blocks_view, empty_doc,
    empty_para_doc, plain, spans_view, strings_view,
};
use crate::xml::{read_zip_entry, utf8_text, zip_entry};
use crate::color::{Color, parse_hex_color, spec_parse_hex_color};
use crate::xml::{
    events_view, xml_tokens,
    XmlEvent, XmlEventView, XmlTag, XmlTagView, get_attr, opt_view, str_eq, tag_attr,
    xml_events,
};

verus! {

// --- automatic character styles -------------------------------------------

/// Character style of an automatic `style:style`.
pub struct SpanStyle {
    pub bold: bool,
    pub italic: bool,
    pub underline: bool,
    pub strike: bool,
    pub color: Option<Color>,
    /// `fo:font-size` without its `pt` suffix.
    pub size: Option<String>,
}

/// Spec value of a [`SpanStyle`].
pub struct StyleView {
    pub bold: bool,
    pub italic: bool,
    pub underline: bool,
    pub strike: bool,
    pub color: Option<Color>,
    pub size: Option<Seq<char>>,
}

impl View for SpanStyle {
    type V = StyleView;

    open spec fn view(&self) -> StyleView {
        StyleView {
            bold: self.bold,
            italic: self.italic,
            underline: self.underline,
            strike: self.strike,
            color: self.color,
            size: opt_view(self.size),
        }
    }
}

pub open spec fn no_style() -> StyleView {
    StyleView {
        bold: false,
        italic: false,
        underline: false,
        strike: false,
        color: None,
        size: None,
    }
}

impl SpanStyle {
    pub fn none() -> (s: SpanStyle)
        ensures
            s@ == no_style(),
    {
        SpanStyle {
            bold: false,
            italic: false,
            underline: false,
            strike: false,
            color: None,
            size: None,
        }
    }

    pub fn copy(&self) -> (s: SpanStyle)
        ensures
            s@ == self@,
    {
        SpanStyle {
            bold: self.bold,
            italic: self.italic,
            underline: self.underline,
            strike: self.strike,
            color: self.color,
            size: match &self.size {
                Some(t) => Some(t.clone()),
                None => None,
            },
        }
    }
}

/// `s` with its final `pt` removed, if it ends with `pt`.
pub open spec fn strip_pt(s: Seq<char>) -> Option<Seq<char>> {
    if s.len() >= 2 && s[s.len() - 2] == 'p' && s[s.len() - 1] == 't' {
        Some(s.take(s.len() - 2))
    } else {
        None
    }
}

/// Whether attribute `key` of `t` is present and not `none`.
pub open spec fn set_not_none(t: XmlTagView, key: Seq<char>) -> bool {
    match tag_attr(t, key) {
        Some(v) => v != "none"@,
        None => false,
    }
}

/// `cur` updated by the attributes of a `style:text-properties` tag.
pub open spec fn apply_props(cur: StyleView, t: XmlTagView) -> StyleView {
    StyleView {
        bold: cur.bold || tag_attr(t, "fo:font-weight"@) == Some("bold"@),
        italic: cur.italic || tag_attr(t, "fo:font-style"@) == Some("italic"@),
        underline: cur.underline || set_not_none(t, "style:text-underline-style"@),
        strike: cur.strike || set_not_none(t, "style:text-line-through-style"@),
        color: match tag_attr(t, "fo:color"@) {
            Some(v) => match spec_parse_hex_color(vstd::utf8::encode_utf8(v)) {
                Some(c) => Some(c),
                None => cur.color,
            },
            None => cur.color,
        },
        size: match tag_attr(t, "fo:font-size"@) {
            Some(v) => match strip_pt(v) {
                Some(p) => if float_text(p) {
                    Some(p)
                } else {
                    cur.size
                },
                None => cur.size,
            },
            None => cur.size,
        },
    }
}

/// Text properties only add formatting: `fo:font-style="italic"` makes the
/// style italic, `fo:font-weight="bold"` makes it bold, a present underline
/// or line-through style other than `none` adds it, and what the style
/// already had stays. A style without the attribute value keeps its own
/// italic and bold.
pub proof fn law_text_properties_add(cur: StyleView, t: XmlTagView)
    ensures
        tag_attr(t, "fo:font-style"@) == Some("italic"@) ==> apply_props(cur, t).italic,
        tag_attr(t, "fo:font-style"@) != Some("italic"@) ==> apply_props(cur, t).italic == cur.italic,
        tag_attr(t, "fo:font-weight"@) == Some("bold"@) ==> apply_props(cur, t).bold,
        tag_attr(t, "fo:font-weight"@) != Some("bold"@) ==> apply_props(cur, t).bold == cur.bold,
        (tag_attr(t, "style:text-underline-style"@) matches Some(v) && v != "none"@) ==> apply_props(
            cur,
            t,
        ).underline,
        (tag_attr(t, "style:text-line-through-style"@) matches Some(v) && v != "none"@)
            ==> apply_props(cur, t).strike,
        cur.italic ==> apply_props(cur, t).italic,
        cur.bold ==> apply_props(cur, t).bold,
        cur.underline ==> apply_props(cur, t).underline,
        cur.strike ==> apply_props(cur, t).strike,
{
}

/// State of the automatic-style scan.
pub struct StylesScanView {
    pub entries: Seq<(Seq<char>, StyleView)>,
    pub cur_name: Option<Seq<char>>,
    pub cur: StyleView,
}

/// The start/empty tag of an event, if it is one.
pub open spec fn open_tag(ev: XmlEventView) -> Option<XmlTagView> {
    match ev {
        XmlEventView::Start(t) => Some(t),
        XmlEventView::Empty(t) => Some(t),
        _ => None,
    }
}

pub open spec fn styles_step(st: StylesScanView, ev: XmlEventView) -> StylesScanView {
    match ev {
        XmlEventView::Start(t) | XmlEventView::Empty(t) => {
            if t.local == "style"@ {
                StylesScanView { cur_name: tag_attr(t, "style:name"@), cur: no_style(), ..st }
            } else if t.local == "text-properties"@ && st.cur_name is Some {
                let c = apply_props(st.cur, t);
                StylesScanView {
                    entries: st.entries.push((st.cur_name.unwrap(), c)),
                    cur: c,
                    ..st
                }
            } else {
                st
            }
        },
        XmlEventView::End(_, local) => {
            if local == "style"@ {
                StylesScanView { cur_name: None, ..st }
            } else {
                st
            }
        },
        _ => st,
    }
}

pub open spec fn styles_fold(evs: Seq<XmlEventView>) -> StylesScanView
    decreases evs.len(),
{
    if evs.len() == 0 {
        StylesScanView { entries: Seq::empty(), cur_name: None, cur: no_style() }
    } else {
        styles_step(styles_fold(evs.drop_last()), evs.last())
    }
}

/// The style last registered under `name`.
pub open spec fn style_lookup(entries: Seq<(Seq<char>, StyleView)>, name: Seq<char>) -> Option<
    StyleView,
>
    decreases entries.len(),
{
    if entries.len() == 0 {
        None
    } else if entries.last().0 == name {
        Some(entries.last().1)
    } else {
        style_lookup(entries.drop_last(), name)
    }
}

/// Automatic character styles by name (the last definition of a name wins).
pub struct StyleTable {
    pub entries: Vec<(String, SpanStyle)>,
}

pub open spec fn entries_view(v: Seq<(String, SpanStyle)>) -> Seq<(Seq<char>, StyleView)> {
    v.map_values(|e: (String, SpanStyle)| (e.0@, e.1@))
}

impl View for StyleTable {
    type V = Seq<(Seq<char>, StyleView)>;

    open spec fn view(&self) -> Seq<(Seq<char>, StyleView)> {
        entries_view(self.entries@)
    }
}

impl StyleTable {
    /// The style registered under `name`.
    pub fn get(&self, name: &str) -> (r: Option<SpanStyle>)
        ensures
            match r {
                Some(s) => style_lookup(self@, name@) == Some(s@),
                None => style_lookup(self@, name@) is None,
            },
    {
        let mut i = self.entries.len();
        assert(self@.take(i as int) =~= self@);
        while i > 0
            invariant
                i <= self.entries.len(),
                style_lookup(self@, name@) == style_lookup(self@.take(i as int), name@),
            decreases i,
        {
            let ghost pre = self@.take(i as int);
            assert(pre.last() == (self.entries@[i - 1].0@, self.entries@[i - 1].1@));
            if str_eq(self.entries[i - 1].0.as_str(), name) {
                return Some(self.entries[i - 1].1.copy());
            }
            assert(pre.drop_last() =~= self@.take(i - 1));
            i -= 1;
        }
        None
    }
}

struct StylesScan {
    table: StyleTable,
    cur_name: Option<String>,
    cur: SpanStyle,
}

impl View for StylesScan {
    type V = StylesScanView;

    closed spec fn view(&self) -> StylesScanView {
        StylesScanView { entries: self.table@, cur_name: opt_view(self.cur_name), cur: self.cur@ }
    }
}

/// Whether attribute `key` of `t` equals `want`.
fn attr_is(t: &XmlTag, key: &str, want: &str) -> (b: bool)
    ensures
        b == (tag_attr(t@, key@) == Some(want@)),
{
    match get_attr(t, key) {
        Some(v) => str_eq(v.as_str(), want),
        None => false,
    }
}

/// Whether attribute `key` of `t` is present and not `none`.
fn attr_not_none(t: &XmlTag, key: &str) -> (b: bool)
    ensures
        b == set_not_none(t@, key@),
{
    match get_attr(t, key) {
        Some(v) => !str_eq(v.as_str(), "none"),
        None => false,
    }
}

fn strip_pt_exec(s: &str) -> (r: Option<String>)
    ensures
        opt_view(r) == strip_pt(s@),
{
    let v = chars_of(s);
    let n = v.len();
    if n >= 2 && v[n - 2] == 'p' && v[n - 1] == 't' {
        let w = copy_range(v.as_slice(), 0, n - 2);
        Some(string_of(w.as_slice()))
    } else {
        None
    }
}

fn apply_props_exec(cur: &mut SpanStyle, t: &XmlTag)
    ensures
        final(cur)@ == apply_props(old(cur)@, t@),
{
    if attr_is(t, "fo:font-weight", "bold") {
        cur.bold = true;
    }
    if attr_is(t, "fo:font-style", "italic") {
        cur.italic = true;
    }
    if attr_not_none(t, "style:text-underline-style") {
        cur.underline = true;
    }
    if attr_not_none(t, "style:text-line-through-style") {
        cur.strike = true;
    }
    match get_attr(t, "fo:color") {
        Some(v) => {
            match parse_hex_color(v.as_str()) {
                Some(c) => {
                    cur.color = Some(c);
                },
                None => {},
            }
        },
        None => {},
    }
    match get_attr(t, "fo:font-size") {
        Some(v) => match strip_pt_exec(v.as_str()) {
            Some(p) => {
                if is_float_text(chars_of(p.as_str()).as_slice()) {
                    cur.size = Some(p);
                }
            },
            None => {},
        },
        None => {},
    }
}

fn styles_step_exec(st: &mut StylesScan, ev: &XmlEvent)
    ensures
        final(st)@ == styles_step(old(st)@, ev@),
{
    match ev {
        XmlEvent::Start(t) | XmlEvent::Empty(t) => {
            if str_eq(t.local.as_str(), "style") {
                st.cur_name = get_attr(t, "style:name");
                st.cur = SpanStyle::none();
            } else if str_eq(t.local.as_str(), "text-properties") && st.cur_name.is_some() {
                apply_props_exec(&mut st.cur, t);
                let name = match &st.cur_name {
                    Some(n) => n.clone(),
                    None => String::new(),
                };
                let c = st.cur.copy();
                st.table.entries.push((name, c));
                assert(st.table@ =~= old(st).table@.push((old(st)@.cur_name.unwrap(), st.cur@)));
            }
        },
        XmlEvent::End(_, local) => {
            if str_eq(local.as_str(), "style") {
                st.cur_name = None;
            }
        },
        _ => {},
    }
}

/// Automatic-style table from the tokens of `xml`.
pub fn parse_styles(xml: &str) -> (r: StyleTable)
    ensures
        r@ == styles_fold(xml_events(xml@)).entries,
{
    let toks = xml_tokens(xml);
    parse_styles_events(toks.as_slice())
}

/// What [`parse_styles`] computes, from the tokens `toks` of the text.
pub fn parse_styles_events(toks: &[XmlEvent]) -> (r: StyleTable)
    ensures
        r@ == styles_fold(events_view(toks@)).entries,
{
    let ghost evs = events_view(toks@);
    let mut i: usize = 0;
    let mut st = StylesScan {
        table: StyleTable { entries: Vec::new() },
        cur_name: None,
        cur: SpanStyle::none(),
    };
    assert(st@.entries =~= Seq::<(Seq<char>, StyleView)>::empty());
    while i < toks.len()
        invariant
            i <= toks.len(),
            st@ == styles_fold(evs.take(i as int)),
            evs == events_view(toks@),
        decreases toks.len() - i,
    {
        let ghost k = i;
        assert(evs[k as int] == toks@[k as int]@);
        styles_step_exec(&mut st, &toks[i]);
        assert(evs.take((k + 1) as int).drop_last() =~= evs.take(k as int));
        i += 1;
    }
    assert(evs.take(toks.len() as int) =~= evs);
    st.table
}

// --- ODT text -------------------------------------------------------------

/// Kind of the block being collected.
pub enum KindView {
    Heading(u8),
    Para,
    /// List item at the given 0-based level (marker `•`).
    Item(u8),
}

/// State of the ODT body scan.
pub struct OdtView {
    pub in_text: bool,
    pub cur: Option<KindView>,
    pub spans: Seq<SpanView>,
    pub stack: Seq<StyleView>,
    pub level: u8,
    pub blocks: Seq<BlockView>,
}

/// A span of `text` styled by `st` (unstyled when `None`).
pub open spec fn styled_span(text: Seq<char>, st: Option<StyleView>) -> SpanView {
    let s = match st {
        Some(s) => s,
        None => no_style(),
    };
    SpanView {
        text,
        bold: s.bold,
        italic: s.italic,
        mono: false,
        strike: s.strike,
        underline: s.underline,
        color: s.color,
        size: match s.size {
            Some(p) => Some(SpanSizeView::Points(p)),
            None => None,
        },
    }
}

/// `spans` with `text` appended in the innermost open style (empty text adds nothing).
pub open spec fn push_styled(spans: Seq<SpanView>, stack: Seq<StyleView>, text: Seq<char>) -> Seq<
    SpanView,
> {
    if text.len() == 0 {
        spans
    } else {
        spans.push(
            styled_span(
                text,
                if stack.len() > 0 {
                    Some(stack.last())
                } else {
                    None
                },
            ),
        )
    }
}

/// `n` spaces.
pub open spec fn spaces(n: nat) -> Seq<char> {
    Seq::new(n, |i: int| ' ')
}

/// Heading level of `text:h`: `text:outline-level` clamped to 1..=6 (1 if absent or not a `u8`).
pub open spec fn outline_level(t: XmlTagView) -> u8 {
    let v: nat = match tag_attr(t, "text:outline-level"@) {
        Some(a) => match parse_unsigned(a, 255) {
            Some(n) => n,
            None => 1,
        },
        None => 1,
    };
    if v < 1 {
        1
    } else if v > 6 {
        6
    } else {
        v as u8
    }
}

/// Number of spaces of a `text:s` (`text:c`, default 1, at most 256).
pub open spec fn space_count(t: XmlTagView) -> nat {
    let v: nat = match tag_attr(t, "text:c"@) {
        Some(a) => match parse_unsigned(a, usize::MAX as nat) {
            Some(n) => n,
            None => 1,
        },
        None => 1,
    };
    if v > 256 {
        256
    } else {
        v
    }
}

/// Whether some span has non-blank text.
pub open spec fn has_text(spans: Seq<SpanView>) -> bool {
    exists|i: int| 0 <= i < spans.len() && !blank(#[trigger] spans[i].text)
}

/// The block a finished `text:h`/`text:p` becomes.
pub open spec fn kind_block(k: KindView, body: Seq<SpanView>) -> BlockView {
    match k {
        KindView::Heading(l) => BlockView::Heading(l, body),
        KindView::Item(level) => BlockView::ListItem { level, marker: "\u{2022}"@, spans: body },
        KindView::Para => BlockView::Para(body),
    }
}

pub open spec fn odt_step(
    st: OdtView,
    ev: XmlEventView,
    styles: Seq<(Seq<char>, StyleView)>,
) -> OdtView {
    match ev {
        XmlEventView::Start(t) => {
            if t.local == "text"@ {
                OdtView { in_text: true, ..st }
            } else if t.local == "list"@ {
                OdtView { level: if st.level < 255 { (st.level + 1) as u8 } else { 255 }, ..st }
            } else if t.local == "h"@ && st.in_text {
                OdtView {
                    cur: Some(KindView::Heading(outline_level(t))),
                    spans: Seq::empty(),
                    ..st
                }
            } else if t.local == "p"@ && st.in_text {
                OdtView {
                    cur: Some(
                        if st.level > 0 {
                            KindView::Item((st.level - 1) as u8)
                        } else {
                            KindView::Para
                        },
                    ),
                    spans: Seq::empty(),
                    ..st
                }
            } else if t.local == "span"@ && st.cur is Some {
                let sty = match tag_attr(t, "text:style-name"@) {
                    Some(n) => match style_lookup(styles, n) {
                        Some(x) => x,
                        None => no_style(),
                    },
                    None => no_style(),
                };
                OdtView { stack: st.stack.push(sty), ..st }
            } else {
                st
            }
        },
        XmlEventView::Empty(t) => {
            if st.cur is Some {
                if t.local == "tab"@ {
                    OdtView { spans: push_styled(st.spans, st.stack, "    "@), ..st }
                } else if t.local == "line-break"@ {
                    OdtView { spans: push_styled(st.spans, st.stack, " "@), ..st }
                } else if t.local == "s"@ {
                    OdtView { spans: push_styled(st.spans, st.stack, spaces(space_count(t))), ..st }
                } else {
                    st
                }
            } else {
                st
            }
        },
        XmlEventView::Text(x) => {
            if st.cur is Some {
                OdtView { spans: push_styled(st.spans, st.stack, x), ..st }
            } else {
                st
            }
        },
        XmlEventView::End(_, local) => {
            if local == "span"@ {
                OdtView {
                    stack: if st.stack.len() > 0 {
                        st.stack.drop_last()
                    } else {
                        st.stack
                    },
                    ..st
                }
            } else if local == "list"@ {
                OdtView { level: if st.level > 0 { (st.level - 1) as u8 } else { 0 }, ..st }
            } else if local == "h"@ || local == "p"@ {
                match st.cur {
                    Some(k) => OdtView {
                        cur: None,
                        spans: Seq::empty(),
                        blocks: if has_text(st.spans) {
                            st.blocks.push(kind_block(k, st.spans))
                        } else {
                            st.blocks
                        },
                        ..st
                    },
                    None => st,
                }
            } else if local == "text"@ {
                OdtView { in_text: false, ..st }
            } else {
                st
            }
        },
        _ => st,
    }
}

pub open spec fn odt_start() -> OdtView {
    OdtView {
        in_text: false,
        cur: None,
        spans: Seq::empty(),
        stack: Seq::empty(),
        level: 0,
        blocks: Seq::empty(),
    }
}

pub open spec fn odt_fold(evs: Seq<XmlEventView>, styles: Seq<(Seq<char>, StyleView)>) -> OdtView
    decreases evs.len(),
{
    if evs.len() == 0 {
        odt_start()
    } else {
        odt_step(odt_fold(evs.drop_last(), styles), evs.last(), styles)
    }
}

/// Text of `content.xml` in the package `bytes`, when present and valid UTF-8.
pub open spec fn content_text(bytes: Seq<u8>) -> Option<Seq<char>> {
    match zip_entry(bytes, "content.xml"@) {
        Some(b) => if vstd::utf8::valid_utf8(b) {
            Some(vstd::utf8::decode_utf8(b))
        } else {
            None
        },
        None => None,
    }
}

/// Blocks of an ODT package: headings, paragraphs and list items with inline
/// character styling; one empty paragraph when there are none.
pub open spec fn spec_odt(bytes: Seq<u8>) -> Seq<BlockView> {
    match content_text(bytes) {
        Some(x) => {
            let evs = xml_events(x);
            let blocks = odt_fold(evs, styles_fold(evs).entries).blocks;
            if blocks.len() == 0 {
                empty_doc()
            } else {
                blocks
            }
        },
        None => empty_doc(),
    }
}

/// Reads `content.xml` of the package as text.
pub fn content_xml(bytes: &[u8]) -> (r: Option<String>)
    ensures
        opt_view(r) == content_text(bytes@),
{
    match read_zip_entry(bytes, "content.xml") {
        Some(v) => utf8_text(v),
        None => None,
    }
}

enum Kind {
    Heading(u8),
    Para,
    Item(u8),
}

impl View for Kind {
    type V = KindView;

    closed spec fn view(&self) -> KindView {
        match self {
            Kind::Heading(l) => KindView::Heading(*l),
            Kind::Para => KindView::Para,
            Kind::Item(l) => KindView::Item(*l),
        }
    }
}

struct OdtState {
    in_text: bool,
    cur: Option<Kind>,
    spans: Vec<Span>,
    stack: Vec<SpanStyle>,
    level: u8,
    blocks: Vec<Block>,
}

pub open spec fn styles_view(v: Seq<SpanStyle>) -> Seq<StyleView> {
    v.map_values(|s: SpanStyle| s@)
}

impl View for OdtState {
    type V = OdtView;

    closed spec fn view(&self) -> OdtView {
        OdtView {
            in_text: self.in_text,
            cur: match self.cur {
                Some(k) => Some(k@),
                None => None,
            },
            spans: spans_view(self.spans@),
            stack: styles_view(self.stack@),
            level: self.level,
            blocks: blocks_view(self.blocks@),
        }
    }
}

/// A span of `text` in style `st`.
fn make_span(text: String, st: &SpanStyle) -> (s: Span)
    ensures
        s@ == styled_span(text@, Some(st@)),
{
    Span {
        text,
        bold: st.bold,
        italic: st.italic,
        mono: false,
        strike: st.strike,
        underline: st.underline,
        color: st.color,
        size: match &st.size {
            Some(p) => Some(SpanSize::Points(p.clone())),
            None => None,
        },
    }
}

/// Appends `text` in the innermost open style.
fn push_styled_exec(spans: &mut Vec<Span>, stack: &Vec<SpanStyle>, text: String)
    ensures
        spans_view(final(spans)@) == push_styled(spans_view(old(spans)@), styles_view(stack@), text@),
{
    if text.as_str().is_empty() {
        return;
    }
    let st = if stack.len() > 0 {
        stack[stack.len() - 1].copy()
    } else {
        SpanStyle::none()
    };
    let sp = make_span(text, &st);
    spans.push(sp);
    assert(spans_view(spans@) =~= spans_view(old(spans)@).push(sp@));
}

/// `n` spaces.
fn spaces_exec(n: usize) -> (s: String)
    ensures
        s@ == spaces(n as nat),
{
    let mut s = String::new();
    let mut i: usize = 0;
    while i < n
        invariant
            i <= n,
            s@ =~= spaces(i as nat),
        decreases n - i,
    {
        s.push(' ');
        i += 1;
    }
    s
}

/// Whether some span has non-blank text.
fn has_text_exec(spans: &Vec<Span>) -> (b: bool)
    ensures
        b == has_text(spans_view(spans@)),
{
    let mut i: usize = 0;
    while i < spans.len()
        invariant
            i <= spans.len(),
            forall|j: int| 0 <= j < i ==> blank(#[trigger] spans_view(spans@)[j].text),
        decreases spans.len() - i,
    {
        let t = chars_of(spans[i].text.as_str());
        if !is_blank(t.as_slice()) {
            assert(spans_view(spans@)[i as int].text == t@);
            return true;
        }
        i += 1;
    }
    false
}

fn outline_level_exec(t: &XmlTag) -> (l: u8)
    ensures
        l == outline_level(t@),
{
    let v: u64 = match get_attr(t, "text:outline-level") {
        Some(a) => {
            let cs = chars_of(a.as_str());
            match parse_unsigned_chars(cs.as_slice(), 255) {
                Some(n) => n,
                None => 1,
            }
        },
        None => 1,
    };
    if v < 1 {
        1
    } else if v > 6 {
        6
    } else {
        v as u8
    }
}

fn space_count_exec(t: &XmlTag) -> (n: usize)
    ensures
        n == space_count(t@),
{
    let v: u64 = match get_attr(t, "text:c") {
        Some(a) => {
            let cs = chars_of(a.as_str());
            match parse_unsigned_chars(cs.as_slice(), usize::MAX as u64) {
                Some(n) => n,
                None => 1,
            }
        },
        None => 1,
    };
    if v > 256 {
        256
    } else {
        v as usize
    }
}

fn odt_step_exec(st: &mut OdtState, ev: &XmlEvent, styles: &StyleTable)
    ensures
        final(st)@ == odt_step(old(st)@, ev@, styles@),
{
    match ev {
        XmlEvent::Start(t) => {
            if str_eq(t.local.as_str(), "text") {
                st.in_text = true;
            } else if str_eq(t.local.as_str(), "list") {
                st.level = if st.level < 255 {
                    st.level + 1
                } else {
                    255
                };
            } else if str_eq(t.local.as_str(), "h") && st.in_text {
                st.cur = Some(Kind::Heading(outline_level_exec(t)));
                st.spans = Vec::new();
                assert(spans_view(st.spans@) =~= Seq::<SpanView>::empty());
            } else if str_eq(t.local.as_str(), "p") && st.in_text {
                st.cur = Some(
                    if st.level > 0 {
                        Kind::Item(st.level - 1)
                    } else {
                        Kind::Para
                    },
                );
                st.spans = Vec::new();
                assert(spans_view(st.spans@) =~= Seq::<SpanView>::empty());
            } else if str_eq(t.local.as_str(), "span") && st.cur.is_some() {
                let sty = match get_attr(t, "text:style-name") {
                    Some(n) => match styles.get(n.as_str()) {
                        Some(x) => x,
                        None => SpanStyle::none(),
                    },
                    None => SpanStyle::none(),
                };
                st.stack.push(sty);
                assert(styles_view(st.stack@) =~= styles_view(old(st).stack@).push(sty@));
            }
        },
        XmlEvent::Empty(t) => {
            if st.cur.is_some() {
                if str_eq(t.local.as_str(), "tab") {
                    push_styled_exec(&mut st.spans, &st.stack, String::from_str("    "));
                } else if str_eq(t.local.as_str(), "line-break") {
                    push_styled_exec(&mut st.spans, &st.stack, String::from_str(" "));
                } else if str_eq(t.local.as_str(), "s") {
                    let n = space_count_exec(t);
                    push_styled_exec(&mut st.spans, &st.stack, spaces_exec(n));
                }
            }
        },
        XmlEvent::Text(x) => {
            if st.cur.is_some() {
                push_styled_exec(&mut st.spans, &st.stack, x.clone());
            }
        },
        XmlEvent::End(_, local) => {
            if str_eq(local.as_str(), "span") {
                if st.stack.len() > 0 {
                    st.stack.pop();
                    assert(styles_view(st.stack@) =~= styles_view(old(st).stack@).drop_last());
                }
            } else if str_eq(local.as_str(), "list") {
                st.level = if st.level > 0 {
                    st.level - 1
                } else {
                    0
                };
            } else if str_eq(local.as_str(), "h") || str_eq(local.as_str(), "p") {
                match st.cur.take() {
                    Some(k) => {
                        let mut body = Vec::new();
                        std::mem::swap(&mut body, &mut st.spans);
                        if has_text_exec(&body) {
                            let ghost bv = spans_view(body@);
                            let b = match k {
                                Kind::Heading(l) => Block::Heading(l, body),
                                Kind::Item(level) => Block::ListItem {
                                    level,
                                    marker: String::from_str("\u{2022}"),
                                    spans: body,
                                },
                                Kind::Para => Block::Para(body),
                            };
                            assert(b@ == kind_block(k@, bv));
                            st.blocks.push(b);
                            assert(blocks_view(st.blocks@) =~= blocks_view(old(st).blocks@).push(
                                b@,
                            ));
                        }
                        assert(spans_view(st.spans@) =~= Seq::<SpanView>::empty());
                    },
                    None => {},
                }
            } else if str_eq(local.as_str(), "text") {
                st.in_text = false;
            }
        },
        _ => {},
    }
}

/// The ODT block scan over the tokens of `xml`.
fn odt_blocks(xml: &str, styles: &StyleTable) -> (r: Vec<Block>)
    ensures
        blocks_view(r@) == odt_fold(xml_events(xml@), styles@).blocks,
{
    let toks = xml_tokens(xml);
    odt_blocks_events(toks.as_slice(), styles)
}

/// What [`odt_blocks`] computes, from the tokens `toks` of the text.
pub fn odt_blocks_events(toks: &[XmlEvent], styles: &StyleTable) -> (r: Vec<Block>)
    ensures
        blocks_view(r@) == odt_fold(events_view(toks@), styles@).blocks,
{
    let ghost evs = events_view(toks@);
    let mut i: usize = 0;
    let mut st = OdtState {
        in_text: false,
        cur: None,
        spans: Vec::new(),
        stack: Vec::new(),
        level: 0,
        blocks: Vec::new(),
    };
    assert(st@ =~= odt_start()) by {
        assert(spans_view(st.spans@) =~= Seq::<SpanView>::empty());
        assert(styles_view(st.stack@) =~= Seq::<StyleView>::empty());
        assert(blocks_view(st.blocks@) =~= Seq::<BlockView>::empty());
    }
    assert(evs.take(0) =~= Seq::<XmlEventView>::empty());
    while i < toks.len()
        invariant
            i <= toks.len(),
            st@ == odt_fold(evs.take(i as int), styles@),
            evs == events_view(toks@),
        decreases toks.len() - i,
    {
        let ghost k = i;
        assert(evs[k as int] == toks@[k as int]@);
        odt_step_exec(&mut st, &toks[i], styles);
        assert(evs.take((k + 1) as int).drop_last() =~= evs.take(k as int));
        i += 1;
    }
    assert(evs.take(toks.len() as int) =~= evs);
    st.blocks
}

/// ODT: headings, paragraphs and list items with inline character styling.
pub fn parse_text(bytes: &[u8]) -> (r: Vec<Block>)
    ensures
        blocks_view(r@) == spec_odt(bytes@),
{
    let xml = match content_xml(bytes) {
        Some(x) => x,
        None => return empty_para_doc(),
    };
    let styles = parse_styles(xml.as_str());
    let blocks = odt_blocks(xml.as_str(), &styles);
    if blocks.len() == 0 {
        return empty_para_doc();
    }
    blocks
}

// --- ODS spreadsheet ------------------------------------------------------

/// A sheet: name and rows of cell strings.
pub type SheetView = (Seq<char>, Seq<Seq<Seq<char>>>);

/// State of the ODS scan.
pub struct OdsView {
    pub sheets: Seq<SheetView>,
    pub rows: Seq<Seq<Seq<char>>>,
    pub name: Seq<char>,
    pub row: Seq<Seq<char>>,
    pub cell: Seq<char>,
    pub cell_val: Option<Seq<char>>,
    pub cell_repeat: nat,
    pub row_repeat: nat,
    pub in_cell: bool,
    pub in_table: bool,
}

/// `s` followed by `n` copies of `x`.
pub open spec fn push_n<A>(s: Seq<A>, x: A, n: nat) -> Seq<A> {
    s + Seq::new(n, |i: int| x)
}

/// `row` without its trailing blank cells.
pub open spec fn drop_blank_cells(row: Seq<Seq<char>>) -> Seq<Seq<char>>
    decreases row.len(),
{
    if row.len() > 0 && blank(row.last()) {
        drop_blank_cells(row.drop_last())
    } else {
        row
    }
}

/// Whether every cell of `row` is blank.
pub open spec fn blank_row(row: Seq<Seq<char>>) -> bool {
    forall|i: int| 0 <= i < row.len() ==> blank(#[trigger] row[i])
}

/// `rows` without its trailing blank rows.
pub open spec fn drop_blank_rows(rows: Seq<Seq<Seq<char>>>) -> Seq<Seq<Seq<char>>>
    decreases rows.len(),
{
    if rows.len() > 0 && blank_row(rows.last()) {
        drop_blank_rows(rows.drop_last())
    } else {
        rows
    }
}

/// A repeat count attribute: its `usize` value (1 if absent or invalid), capped at `cap`.
pub open spec fn repeat_attr(t: XmlTagView, key: Seq<char>, cap: nat) -> nat {
    let v: nat = match tag_attr(t, key) {
        Some(a) => match parse_unsigned(a, usize::MAX as nat) {
            Some(n) => n,
            None => 1,
        },
        None => 1,
    };
    if v > cap {
        cap
    } else {
        v
    }
}

/// Value attribute of a numeric/date/string/boolean cell.
pub open spec fn cell_value_attr(t: XmlTagView) -> Option<Seq<char>> {
    match tag_attr(t, "office:value"@) {
        Some(v) => Some(v),
        None => match tag_attr(t, "office:date-value"@) {
            Some(v) => Some(v),
            None => match tag_attr(t, "office:string-value"@) {
                Some(v) => Some(v),
                None => tag_attr(t, "office:boolean-value"@),
            },
        },
    }
}

pub open spec fn is_cell_name(local: Seq<char>) -> bool {
    local == "table-cell"@ || local == "covered-table-cell"@
}

pub open spec fn ods_step(st: OdsView, ev: XmlEventView) -> OdsView {
    match ev {
        XmlEventView::Start(t) | XmlEventView::Empty(t) => {
            if t.local == "table"@ {
                OdsView {
                    in_table: true,
                    rows: Seq::empty(),
                    name: match tag_attr(t, "table:name"@) {
                        Some(n) => n,
                        None => "Sheet"@ + dec(st.sheets.len() + 1),
                    },
                    ..st
                }
            } else if t.local == "table-row"@ && st.in_table {
                OdsView {
                    row: Seq::empty(),
                    row_repeat: repeat_attr(t, "table:number-rows-repeated"@, 1000),
                    ..st
                }
            } else if is_cell_name(t.local) && st.in_table {
                OdsView {
                    in_cell: true,
                    cell: Seq::empty(),
                    cell_repeat: repeat_attr(t, "table:number-columns-repeated"@, 1024),
                    cell_val: cell_value_attr(t),
                    ..st
                }
            } else {
                st
            }
        },
        XmlEventView::Text(x) => {
            if st.in_cell {
                OdsView { cell: st.cell + x, ..st }
            } else {
                st
            }
        },
        XmlEventView::End(_, local) => {
            if is_cell_name(local) && st.in_table {
                let text = if blank(st.cell) {
                    match st.cell_val {
                        Some(v) => v,
                        None => Seq::empty(),
                    }
                } else {
                    st.cell
                };
                let rep: nat = if blank(text) {
                    1
                } else if st.cell_repeat < 1 {
                    1
                } else {
                    st.cell_repeat
                };
                OdsView { in_cell: false, row: push_n(st.row, text, rep), cell_val: None, ..st }
            } else if local == "table-row"@ && st.in_table {
                let row = drop_blank_cells(st.row);
                let rep: nat = if row.len() == 0 {
                    1
                } else if st.row_repeat < 1 {
                    1
                } else {
                    st.row_repeat
                };
                OdsView { row, rows: push_n(st.rows, row, rep), ..st }
            } else if local == "table"@ && st.in_table {
                OdsView {
                    in_table: false,
                    sheets: st.sheets.push((st.name, drop_blank_rows(st.rows))),
                    name: Seq::empty(),
                    rows: Seq::empty(),
                    ..st
                }
            } else {
                st
            }
        },
        _ => st,
    }
}

pub open spec fn ods_start() -> OdsView {
    OdsView {
        sheets: Seq::empty(),
        rows: Seq::empty(),
        name: Seq::empty(),
        row: Seq::empty(),
        cell: Seq::empty(),
        cell_val: None,
        cell_repeat: 1,
        row_repeat: 1,
        in_cell: false,
        in_table: false,
    }
}

pub open spec fn ods_fold(evs: Seq<XmlEventView>) -> OdsView
    decreases evs.len(),
{
    if evs.len() == 0 {
        ods_start()
    } else {
        ods_step(ods_fold(evs.drop_last()), evs.last())
    }
}

/// Sheets of an ODS package (none when `content.xml` cannot be read).
pub open spec fn spec_ods(bytes: Seq<u8>) -> Seq<SheetView> {
    match content_text(bytes) {
        Some(x) => ods_fold(xml_events(x)).sheets,
        None => Seq::empty(),
    }
}

pub open spec fn rows_view(v: Seq<Vec<String>>) -> Seq<Seq<Seq<char>>> {
    v.map_values(|r: Vec<String>| strings_view(r@))
}

pub open spec fn sheets_view(v: Seq<(String, Vec<Vec<String>>)>) -> Seq<SheetView> {
    v.map_values(|s: (String, Vec<Vec<String>>)| (s.0@, rows_view(s.1@)))
}

struct OdsState {
    sheets: Vec<(String, Vec<Vec<String>>)>,
    rows: Vec<Vec<String>>,
    name: String,
    row: Vec<String>,
    cell: String,
    cell_val: Option<String>,
    cell_repeat: usize,
    row_repeat: usize,
    in_cell: bool,
    in_table: bool,
}

impl View for OdsState {
    type V = OdsView;

    closed spec fn view(&self) -> OdsView {
        OdsView {
            sheets: sheets_view(self.sheets@),
            rows: rows_view(self.rows@),
            name: self.name@,
            row: strings_view(self.row@),
            cell: self.cell@,
            cell_val: opt_view(self.cell_val),
            cell_repeat: self.cell_repeat as nat,
            row_repeat: self.row_repeat as nat,
            in_cell: self.in_cell,
            in_table: self.in_table,
        }
    }
}

/// Copy of a list of strings.
pub fn clone_strings(v: &Vec<String>) -> (r: Vec<String>)
    ensures
        strings_view(r@) == strings_view(v@),
{
    let mut r: Vec<String> = Vec::new();
    let mut i: usize = 0;
    while i < v.len()
        invariant
            i <= v.len(),
            strings_view(r@) =~= strings_view(v@).take(i as int),
        decreases v.len() - i,
    {
        let ghost before = strings_view(r@);
        let x = v[i].clone();
        r.push(x);
        assert(strings_view(r@) =~= before.push(x@));
        assert(strings_view(v@).take(i + 1) =~= strings_view(v@).take(i as int).push(v@[i as int]@));
        i += 1;
    }
    assert(strings_view(v@).take(v.len() as int) =~= strings_view(v@));
    r
}

fn is_blank_str(s: &String) -> (b: bool)
    ensures
        b == blank(s@),
{
    let c = chars_of(s.as_str());
    is_blank(c.as_slice())
}

fn repeat_attr_exec(t: &XmlTag, key: &str, cap: usize) -> (n: usize)
    ensures
        n == repeat_attr(t@, key@, cap as nat),
{
    let v: u64 = match get_attr(t, key) {
        Some(a) => {
            let cs = chars_of(a.as_str());
            match parse_unsigned_chars(cs.as_slice(), usize::MAX as u64) {
                Some(n) => n,
                None => 1,
            }
        },
        None => 1,
    };
    if v > cap as u64 {
        cap
    } else {
        v as usize
    }
}

fn cell_value_attr_exec(t: &XmlTag) -> (r: Option<String>)
    ensures
        opt_view(r) == cell_value_attr(t@),
{
    match get_attr(t, "office:value") {
        Some(v) => Some(v),
        None => match get_attr(t, "office:date-value") {
            Some(v) => Some(v),
            None => match get_attr(t, "office:string-value") {
                Some(v) => Some(v),
                None => get_attr(t, "office:boolean-value"),
            },
        },
    }
}

/// Drops trailing blank cells.
fn drop_blank_cells_exec(row: &mut Vec<String>)
    ensures
        strings_view(final(row)@) == drop_blank_cells(strings_view(old(row)@)),
{
    loop
        invariant
            drop_blank_cells(strings_view(row@)) == drop_blank_cells(strings_view(old(row)@)),
        ensures
            strings_view(row@) == drop_blank_cells(strings_view(old(row)@)),
        decreases row.len(),
    {
        if row.len() == 0 {
            break;
        }
        let last_blank = is_blank_str(&row[row.len() - 1]);
        if !last_blank {
            break;
        }
        let ghost before = strings_view(row@);
        row.pop();
        assert(strings_view(row@) =~= before.drop_last());
    }
}

fn is_blank_row(row: &Vec<String>) -> (b: bool)
    ensures
        b == blank_row(strings_view(row@)),
{
    let mut i: usize = 0;
    while i < row.len()
        invariant
            i <= row.len(),
            forall|j: int| 0 <= j < i ==> blank(#[trigger] strings_view(row@)[j]),
        decreases row.len() - i,
    {
        if !is_blank_str(&row[i]) {
            assert(!blank(strings_view(row@)[i as int]));
            return false;
        }
        i += 1;
    }
    true
}

/// Drops trailing blank rows.
fn drop_blank_rows_exec(rows: &mut Vec<Vec<String>>)
    ensures
        rows_view(final(rows)@) == drop_blank_rows(rows_view(old(rows)@)),
{
    loop
        invariant
            drop_blank_rows(rows_view(rows@)) == drop_blank_rows(rows_view(old(rows)@)),
        ensures
            rows_view(rows@) == drop_blank_rows(rows_view(old(rows)@)),
        decreases rows.len(),
    {
        if rows.len() == 0 {
            break;
        }
        let last_blank = is_blank_row(&rows[rows.len() - 1]);
        if !last_blank {
            break;
        }
        let ghost before = rows_view(rows@);
        rows.pop();
        assert(rows_view(rows@) =~= before.drop_last());
    }
}

/// The default name of the sheet that follows `n` sheets: `Sheet{n + 1}`.
fn sheet_default_name(n: usize) -> (s: String)
    ensures
        s@ == "Sheet"@ + dec((n + 1) as nat),
{
    let mut v = chars_of("Sheet");
    let d = dec_chars(n as u128 + 1);
    append_chars(&mut v, d.as_slice());
    string_of(v.as_slice())
}

/// Appends `rep` copies of `text`.
fn push_copies(row: &mut Vec<String>, text: &String, rep: usize)
    ensures
        strings_view(final(row)@) == push_n(strings_view(old(row)@), text@, rep as nat),
{
    let ghost row0 = strings_view(row@);
    let mut k: usize = 0;
    assert(push_n(row0, text@, 0) =~= row0);
    while k < rep
        invariant
            k <= rep,
            strings_view(row@) =~= push_n(row0, text@, k as nat),
        decreases rep - k,
    {
        let ghost before = strings_view(row@);
        let x = text.clone();
        row.push(x);
        assert(strings_view(row@) =~= before.push(x@));
        assert(push_n(row0, text@, (k + 1) as nat) =~= push_n(row0, text@, k as nat).push(text@));
        k += 1;
    }
}

/// Appends `rep` copies of `row`.
fn push_row_copies(rows: &mut Vec<Vec<String>>, row: &Vec<String>, rep: usize)
    ensures
        rows_view(final(rows)@) == push_n(rows_view(old(rows)@), strings_view(row@), rep as nat),
{
    let ghost rows0 = rows_view(rows@);
    let mut k: usize = 0;
    assert(push_n(rows0, strings_view(row@), 0) =~= rows0);
    while k < rep
        invariant
            k <= rep,
            rows_view(rows@) =~= push_n(rows0, strings_view(row@), k as nat),
        decreases rep - k,
    {
        let ghost before = rows_view(rows@);
        let copy = clone_strings(row);
        rows.push(copy);
        assert(rows_view(rows@) =~= before.push(strings_view(copy@)));
        assert(push_n(rows0, strings_view(row@), (k + 1) as nat) =~= push_n(
            rows0,
            strings_view(row@),
            k as nat,
        ).push(strings_view(row@)));
        k += 1;
    }
}

fn ods_step_exec(st: &mut OdsState, ev: &XmlEvent)
    ensures
        final(st)@ == ods_step(old(st)@, ev@),
{
    match ev {
        XmlEvent::Start(t) | XmlEvent::Empty(t) => {
            if str_eq(t.local.as_str(), "table") {
                st.in_table = true;
                st.rows = Vec::new();
                st.name = match get_attr(t, "table:name") {
                    Some(n) => n,
                    None => sheet_default_name(st.sheets.len()),
                };
                assert(rows_view(st.rows@) =~= Seq::<Seq<Seq<char>>>::empty());
            } else if str_eq(t.local.as_str(), "table-row") && st.in_table {
                st.row = Vec::new();
                st.row_repeat = repeat_attr_exec(t, "table:number-rows-repeated", 1000);
                assert(strings_view(st.row@) =~= Seq::<Seq<char>>::empty());
            } else if (str_eq(t.local.as_str(), "table-cell") || str_eq(
                t.local.as_str(),
                "covered-table-cell",
            )) && st.in_table {
                st.in_cell = true;
                st.cell = String::new();
                st.cell_repeat = repeat_attr_exec(t, "table:number-columns-repeated", 1024);
                st.cell_val = cell_value_attr_exec(t);
            }
        },
        XmlEvent::Text(x) => {
            if st.in_cell {
                st.cell.append(x.as_str());
            }
        },
        XmlEvent::End(_, local) => {
            if (str_eq(local.as_str(), "table-cell") || str_eq(local.as_str(), "covered-table-cell"))
                && st.in_table {
                st.in_cell = false;
                let text = if is_blank_str(&st.cell) {
                    match st.cell_val.take() {
                        Some(v) => v,
                        None => String::new(),
                    }
                } else {
                    st.cell.clone()
                };
                let rep: usize = if is_blank_str(&text) {
                    1
                } else if st.cell_repeat < 1 {
                    1
                } else {
                    st.cell_repeat
                };
                push_copies(&mut st.row, &text, rep);
                st.cell_val = None;
            } else if str_eq(local.as_str(), "table-row") && st.in_table {
                drop_blank_cells_exec(&mut st.row);
                let rep: usize = if st.row.len() == 0 {
                    1
                } else if st.row_repeat < 1 {
                    1
                } else {
                    st.row_repeat
                };
                push_row_copies(&mut st.rows, &st.row, rep);
            } else if str_eq(local.as_str(), "table") && st.in_table {
                st.in_table = false;
                drop_blank_rows_exec(&mut st.rows);
                let mut name = String::new();
                std::mem::swap(&mut name, &mut st.name);
                let mut rows = Vec::new();
                std::mem::swap(&mut rows, &mut st.rows);
                let ghost entry = (name@, rows_view(rows@));
                st.sheets.push((name, rows));
                assert(sheets_view(st.sheets@) =~= sheets_view(old(st).sheets@).push(entry));
                assert(rows_view(st.rows@) =~= Seq::<Seq<Seq<char>>>::empty());
            }
        },
        _ => {},
    }
}

/// The sheets of a `content.xml`, from its tokens `toks`.
pub fn ods_sheets_events(toks: &[XmlEvent]) -> (r: Vec<(String, Vec<Vec<String>>)>)
    ensures
        sheets_view(r@) == ods_fold(events_view(toks@)).sheets,
{
    let ghost evs = events_view(toks@);
    let mut i: usize = 0;
    let mut st = OdsState {
        sheets: Vec::new(),
        rows: Vec::new(),
        name: String::new(),
        row: Vec::new(),
        cell: String::new(),
        cell_val: None,
        cell_repeat: 1,
        row_repeat: 1,
        in_cell: false,
        in_table: false,
    };
    assert(st@ =~= ods_start()) by {
        assert(sheets_view(st.sheets@) =~= Seq::<SheetView>::empty());
        assert(rows_view(st.rows@) =~= Seq::<Seq<Seq<char>>>::empty());
        assert(strings_view(st.row@) =~= Seq::<Seq<char>>::empty());
    }
    assert(evs.take(0) =~= Seq::<XmlEventView>::empty());
    while i < toks.len()
        invariant
            i <= toks.len(),
            st@ == ods_fold(evs.take(i as int)),
            evs == events_view(toks@),
        decreases toks.len() - i,
    {
        let ghost k = i;
        assert(evs[k as int] == toks@[k as int]@);
        ods_step_exec(&mut st, &toks[i]);
        assert(evs.take((k + 1) as int).drop_last() =~= evs.take(k as int));
        i += 1;
    }
    assert(evs.take(toks.len() as int) =~= evs);
    st.sheets
}

/// ODS: every sheet as `(name, rows)` for the grid renderer.
pub fn parse_spreadsheet(bytes: &[u8]) -> (r: Vec<(String, Vec<Vec<String>>)>)
    ensures
        sheets_view(r@) == spec_ods(bytes@),
{
    let xml = match content_xml(bytes) {
        Some(x) => x,
        None => {
            let v: Vec<(String, Vec<Vec<String>>)> = Vec::new();
            assert(sheets_view(v@) =~= Seq::<SheetView>::empty());
            return v;
        },
    };
    let toks = xml_tokens(xml.as_str());
    ods_sheets_events(toks.as_slice())
}

/// Rows of the first sheet of an ODS package (none if it has no sheet).
pub fn parse_spreadsheet_rows(bytes: &[u8]) -> (r: Vec<Vec<String>>)
    ensures
        rows_view(r@) == (if spec_ods(bytes@).len() > 0 {
            spec_ods(bytes@)[0].1
        } else {
            Seq::empty()
        }),
{
    let mut sheets = parse_spreadsheet(bytes);
    if sheets.len() == 0 {
        let v: Vec<Vec<String>> = Vec::new();
        assert(rows_view(v@) =~= Seq::<Seq<Seq<char>>>::empty());
        return v;
    }
    let ghost first = sheets_view(sheets@)[0];
    let (_, rows) = sheets.swap_remove(0);
    assert(rows_view(rows@) == first.1);
    rows
}

// --- ODP presentation --------------------------------------------------------

/// State of the ODP scan.
pub struct OdpView {
    pub blocks: Seq<BlockView>,
    pub page: u32,
    pub in_p: bool,
    pub in_notes: bool,
    pub text: Seq<char>,
}

pub open spec fn odp_step(st: OdpView, ev: XmlEventView) -> OdpView {
    match ev {
        XmlEventView::Start(t) => {
            if t.local == "notes"@ {
                OdpView { in_notes: true, ..st }
            } else if t.local == "page"@ && !st.in_notes {
                let page: u32 = if st.page < u32::MAX { (st.page + 1) as u32 } else { 0 };
                let title = match tag_attr(t, "draw:name"@) {
                    Some(n) => n,
                    None => "Slide "@ + dec(page as nat),
                };
                let b = if page > 1 {
                    st.blocks.push(BlockView::Rule)
                } else {
                    st.blocks
                };
                OdpView { page, blocks: b.push(BlockView::Heading(2, seq![plain(title)])), ..st }
            } else if t.local == "p"@ && !st.in_notes {
                OdpView { in_p: true, text: Seq::empty(), ..st }
            } else {
                st
            }
        },
        XmlEventView::Text(x) => {
            if st.in_p {
                OdpView { text: st.text + x, ..st }
            } else {
                st
            }
        },
        XmlEventView::End(_, local) => {
            if local == "notes"@ {
                OdpView { in_notes: false, ..st }
            } else if local == "p"@ && st.in_p {
                let s = trim(st.text);
                OdpView {
                    in_p: false,
                    blocks: if s.len() > 0 {
                        st.blocks.push(BlockView::Para(seq![plain(s)]))
                    } else {
                        st.blocks
                    },
                    ..st
                }
            } else {
                st
            }
        },
        _ => st,
    }
}

pub open spec fn odp_fold(evs: Seq<XmlEventView>) -> OdpView
    decreases evs.len(),
{
    if evs.len() == 0 {
        OdpView { blocks: Seq::empty(), page: 0, in_p: false, in_notes: false, text: Seq::empty() }
    } else {
        odp_step(odp_fold(evs.drop_last()), evs.last())
    }
}

/// Blocks of an ODP package: per slide a rule (after the first), a level-2
/// heading with the slide name and one paragraph per non-blank text paragraph;
/// presenter notes are skipped.
pub open spec fn spec_odp(bytes: Seq<u8>) -> Seq<BlockView> {
    match content_text(bytes) {
        Some(x) => {
            let blocks = odp_fold(xml_events(x)).blocks;
            if blocks.len() == 0 {
                empty_doc()
            } else {
                blocks
            }
        },
        None => empty_doc(),
    }
}

struct OdpState {
    blocks: Vec<Block>,
    page: u32,
    in_p: bool,
    in_notes: bool,
    text: String,
}

impl View for OdpState {
    type V = OdpView;

    closed spec fn view(&self) -> OdpView {
        OdpView {
            blocks: blocks_view(self.blocks@),
            page: self.page,
            in_p: self.in_p,
            in_notes: self.in_notes,
            text: self.text@,
        }
    }
}

/// A one-span block list entry holding plain `text`.
fn one_span(text: String) -> (v: Vec<Span>)
    ensures
        spans_view(v@) == seq![plain(text@)],
{
    let mut v = Vec::new();
    v.push(Span::new(text));
    assert(spans_view(v@) =~= seq![plain(text@)]);
    v
}

fn odp_step_exec(st: &mut OdpState, ev: &XmlEvent)
    ensures
        final(st)@ == odp_step(old(st)@, ev@),
{
    match ev {
        XmlEvent::Start(t) => {
            if str_eq(t.local.as_str(), "notes") {
                st.in_notes = true;
            } else if str_eq(t.local.as_str(), "page") && !st.in_notes {
                st.page = if st.page < u32::MAX {
                    st.page + 1
                } else {
                    0
                };
                let title = match get_attr(t, "draw:name") {
                    Some(n) => n,
                    None => {
                        let mut v = chars_of("Slide ");
                        let d = dec_chars(st.page as u128);
                        append_chars(&mut v, d.as_slice());
                        string_of(v.as_slice())
                    },
                };
                if st.page > 1 {
                    st.blocks.push(Block::Rule);
                }
                let ghost mid = blocks_view(st.blocks@);
                assert(mid =~= (if st.page > 1 {
                    blocks_view(old(st).blocks@).push(BlockView::Rule)
                } else {
                    blocks_view(old(st).blocks@)
                }));
                let h = Block::Heading(2, one_span(title));
                st.blocks.push(h);
                assert(blocks_view(st.blocks@) =~= mid.push(h@));
            } else if str_eq(t.local.as_str(), "p") && !st.in_notes {
                st.in_p = true;
                st.text = String::new();
            }
        },
        XmlEvent::Text(x) => {
            if st.in_p {
                st.text.append(x.as_str());
            }
        },
        XmlEvent::End(_, local) => {
            if str_eq(local.as_str(), "notes") {
                st.in_notes = false;
            } else if str_eq(local.as_str(), "p") && st.in_p {
                st.in_p = false;
                let cs = chars_of(st.text.as_str());
                let t = trim_chars(cs.as_slice());
                if t.len() > 0 {
                    let b = Block::Para(one_span(string_of(t.as_slice())));
                    st.blocks.push(b);
                    assert(blocks_view(st.blocks@) =~= blocks_view(old(st).blocks@).push(b@));
                }
            }
        },
        _ => {},
    }
}

/// The page blocks of a presentation `content.xml`, from its tokens `toks`.
pub fn odp_blocks_events(toks: &[XmlEvent]) -> (r: Vec<Block>)
    ensures
        blocks_view(r@) == odp_fold(events_view(toks@)).blocks,
{
    let ghost evs = events_view(toks@);
    let mut i: usize = 0;
    let mut st = OdpState {
        blocks: Vec::new(),
        page: 0,
        in_p: false,
        in_notes: false,
        text: String::new(),
    };
    assert(st@ =~= odp_fold(Seq::<XmlEventView>::empty())) by {
        assert(blocks_view(st.blocks@) =~= Seq::<BlockView>::empty());
    }
    assert(evs.take(0) =~= Seq::<XmlEventView>::empty());
    while i < toks.len()
        invariant
            i <= toks.len(),
            st@ == odp_fold(evs.take(i as int)),
            evs == events_view(toks@),
        decreases toks.len() - i,
    {
        let ghost k = i;
        assert(evs[k as int] == toks@[k as int]@);
        odp_step_exec(&mut st, &toks[i]);
        assert(evs.take((k + 1) as int).drop_last() =~= evs.take(k as int));
        i += 1;
    }
    assert(evs.take(toks.len() as int) =~= evs);
    st.blocks
}

/// ODP: each `draw:page` -> a heading + its text paragraphs; presentation notes skipped.
pub fn parse_presentation(bytes: &[u8]) -> (r: Vec<Block>)
    ensures
        blocks_view(r@) == spec_odp(bytes@),
{
    let xml = match content_xml(bytes) {
        Some(x) => x,
        None => return empty_para_doc(),
    };
    let toks = xml_tokens(xml.as_str());
    let blocks = odp_blocks_events(toks.as_slice());
    if blocks.len() == 0 {
        return empty_para_doc();
    }
    blocks
}

} // verus!
