//! The layout layer of an `.xlsx` worksheet that the cell values do not
//! carry: column widths, row heights, merged ranges and per-cell style
//! indices from the worksheet part, and cell formats (number format, font,
//! fill, border edges, horizontal alignment) from `xl/styles.xml`. Lengths
//! stay as the attribute texts; they are read as numbers where the grid is
//! laid out. The sheet names come from `calamine`.

use vstd::prelude::*;
use crate::chars::{chars_of, float_text, is_float_text, parse_unsigned, string_of, trim, trim_chars};
use crate::color::{Color, rgb_hex, spec_theme_color, theme_color};
use crate::package::{part_text, read_part_text, sheet_path, spec_sheet_path};
use crate::sheet::{
    BorderEdges, HAlign, builtin_format, h_align, max_u32, parse_range, parse_ref, spec_builtin_format,
    spec_h_align, spec_parse_range, spec_parse_ref,
};
use crate::xml::{
    events_view, xml_tokens,
    XmlEvent, XmlEventView, XmlTag, XmlTagView, attr_u32, get_attr, get_attr_u32,
    opt_view, str_eq, tag_attr, xml_events,
};

verus! {

// ------------------------------------------------------------------------
// Worksheet geometry
// ------------------------------------------------------------------------

/// Worksheet structure: `<col>` width ranges, `<row>` heights, merged ranges,
/// cell style indices and the extent of the sheet.
pub struct Geometry {
    /// `(min, max, width)` of each `<col>` with a numeric width: 1-based
    /// columns, the width in characters as written.
    pub col_ranges: Vec<(u32, u32, String)>,
    /// `(row, ht)` of each numbered `<row>` with a numeric height: 1-based
    /// row, the height in points as written (a later entry for a row wins).
    pub row_heights: Vec<(u32, String)>,
    /// Merged ranges as (row0, col0, row1, col1), 0-based inclusive.
    pub merges: Vec<(u32, u32, u32, u32)>,
    /// `(row0, col0, style)` of each cell with a style index (later wins).
    pub cell_xf: Vec<(u32, u32, u32)>,
    /// Rows and columns seen (exclusive counts).
    pub n_rows: u32,
    pub n_cols: u32,
}

/// Spec value of a [`Geometry`].
pub struct GeometryView {
    pub col_ranges: Seq<(u32, u32, Seq<char>)>,
    pub row_heights: Seq<(u32, Seq<char>)>,
    pub merges: Seq<(u32, u32, u32, u32)>,
    pub cell_xf: Seq<(u32, u32, u32)>,
    pub n_rows: u32,
    pub n_cols: u32,
}

impl View for Geometry {
    type V = GeometryView;

    open spec fn view(&self) -> GeometryView {
        GeometryView {
            col_ranges: self.col_ranges@.map_values(|e: (u32, u32, String)| (e.0, e.1, e.2@)),
            row_heights: self.row_heights@.map_values(|e: (u32, String)| (e.0, e.1@)),
            merges: self.merges@,
            cell_xf: self.cell_xf@,
            n_rows: self.n_rows,
            n_cols: self.n_cols,
        }
    }
}

/// The empty geometry.
pub open spec fn empty_geometry() -> GeometryView {
    GeometryView {
        col_ranges: Seq::empty(),
        row_heights: Seq::empty(),
        merges: Seq::empty(),
        cell_xf: Seq::empty(),
        n_rows: 0,
        n_cols: 0,
    }
}

impl Geometry {
    /// No columns, rows, merges or styles.
    pub fn empty() -> (g: Geometry)
        ensures
            g@ == empty_geometry(),
    {
        let g = Geometry {
            col_ranges: Vec::new(),
            row_heights: Vec::new(),
            merges: Vec::new(),
            cell_xf: Vec::new(),
            n_rows: 0,
            n_cols: 0,
        };
        assert(g@.col_ranges =~= Seq::<(u32, u32, Seq<char>)>::empty());
        assert(g@.row_heights =~= Seq::<(u32, Seq<char>)>::empty());
        assert(g@ =~= empty_geometry());
        g
    }
}

/// One token of a worksheet part.
pub open spec fn ws_step(g: GeometryView, ev: XmlEventView) -> GeometryView {
    match ev {
        XmlEventView::Start(t) | XmlEventView::Empty(t) => ws_open(g, t),
        _ => g,
    }
}

/// A start or empty tag of a worksheet part.
pub open spec fn ws_open(g: GeometryView, t: XmlTagView) -> GeometryView {
    let n = t.name;
    if n == "dimension"@ {
        match tag_attr(t, "ref"@) {
            Some(r) => {
                let rg = spec_parse_range(r);
                GeometryView {
                    n_rows: max_u32(g.n_rows, (rg.2 + 1) as u32),
                    n_cols: max_u32(g.n_cols, (rg.3 + 1) as u32),
                    ..g
                }
            },
            None => g,
        }
    } else if n == "col"@ {
        let min = match attr_u32(t, "min"@) {
            Some(v) => v,
            None => 1u32,
        };
        let max = match attr_u32(t, "max"@) {
            Some(v) => v,
            None => min,
        };
        match tag_attr(t, "width"@) {
            Some(w) => if float_text(w) {
                GeometryView { col_ranges: g.col_ranges.push((min, max, w)), ..g }
            } else {
                g
            },
            None => g,
        }
    } else if n == "row"@ {
        match attr_u32(t, "r"@) {
            Some(r) => {
                let g2 = GeometryView { n_rows: max_u32(g.n_rows, r), ..g };
                match tag_attr(t, "ht"@) {
                    Some(h) => if float_text(h) {
                        GeometryView { row_heights: g2.row_heights.push((r, h)), ..g2 }
                    } else {
                        g2
                    },
                    None => g2,
                }
            },
            None => g,
        }
    } else if n == "c"@ {
        match tag_attr(t, "r"@) {
            Some(rf) => {
                let rc = spec_parse_ref(rf);
                let g2 = GeometryView {
                    n_rows: max_u32(g.n_rows, (rc.0 + 1) as u32),
                    n_cols: max_u32(g.n_cols, (rc.1 + 1) as u32),
                    ..g
                };
                match attr_u32(t, "s"@) {
                    Some(s) => GeometryView { cell_xf: g2.cell_xf.push((rc.0, rc.1, s)), ..g2 },
                    None => g2,
                }
            },
            None => g,
        }
    } else if n == "mergeCell"@ {
        match tag_attr(t, "ref"@) {
            Some(r) => GeometryView { merges: g.merges.push(spec_parse_range(r)), ..g },
            None => g,
        }
    } else {
        g
    }
}

/// The worksheet scan over a token sequence.
pub open spec fn ws_fold(evs: Seq<XmlEventView>) -> GeometryView
    decreases evs.len(),
{
    if evs.len() == 0 {
        empty_geometry()
    } else {
        ws_step(ws_fold(evs.drop_last()), evs.last())
    }
}

fn max_exec(a: u32, b: u32) -> (r: u32)
    ensures
        r == max_u32(a, b),
{
    if a >= b {
        a
    } else {
        b
    }
}

fn ws_open_exec(g: &mut Geometry, t: &XmlTag)
    ensures
        final(g)@ == ws_open(old(g)@, t@),
{
    let n = t.name.as_str();
    if str_eq(n, "dimension") {
        match get_attr(t, "ref") {
            Some(r) => {
                let rg = parse_range(r.as_str());
                g.n_rows = max_exec(g.n_rows, rg.2 + 1);
                g.n_cols = max_exec(g.n_cols, rg.3 + 1);
            },
            None => {},
        }
    } else if str_eq(n, "col") {
        let min = match get_attr_u32(t, "min") {
            Some(v) => v,
            None => 1,
        };
        let max = match get_attr_u32(t, "max") {
            Some(v) => v,
            None => min,
        };
        match get_attr(t, "width") {
            Some(w) => {
                if is_float_text(chars_of(w.as_str()).as_slice()) {
                    let ghost before = g@.col_ranges;
                    let ghost wv = w@;
                    g.col_ranges.push((min, max, w));
                    assert(g@.col_ranges =~= before.push((min, max, wv)));
                }
            },
            None => {},
        }
    } else if str_eq(n, "row") {
        match get_attr_u32(t, "r") {
            Some(r) => {
                g.n_rows = max_exec(g.n_rows, r);
                match get_attr(t, "ht") {
                    Some(h) => {
                        if is_float_text(chars_of(h.as_str()).as_slice()) {
                            let ghost before = g@.row_heights;
                            let ghost hv = h@;
                            g.row_heights.push((r, h));
                            assert(g@.row_heights =~= before.push((r, hv)));
                        }
                    },
                    None => {},
                }
            },
            None => {},
        }
    } else if str_eq(n, "c") {
        match get_attr(t, "r") {
            Some(rf) => {
                let rc = parse_ref(rf.as_str());
                g.n_rows = max_exec(g.n_rows, rc.0 + 1);
                g.n_cols = max_exec(g.n_cols, rc.1 + 1);
                match get_attr_u32(t, "s") {
                    Some(s) => {
                        g.cell_xf.push((rc.0, rc.1, s));
                    },
                    None => {},
                }
            },
            None => {},
        }
    } else if str_eq(n, "mergeCell") {
        match get_attr(t, "ref") {
            Some(r) => {
                g.merges.push(parse_range(r.as_str()));
            },
            None => {},
        }
    }
}

/// Worksheet structure from the tokens of a worksheet part.
pub fn parse_worksheet(xml: &str) -> (g: Geometry)
    ensures
        g@ == ws_fold(xml_events(xml@)),
{
    let toks = xml_tokens(xml);
    parse_worksheet_events(toks.as_slice())
}

/// What [`parse_worksheet`] computes, from the tokens `toks` of the text.
pub fn parse_worksheet_events(toks: &[XmlEvent]) -> (g: Geometry)
    ensures
        g@ == ws_fold(events_view(toks@)),
{
    let ghost evs = events_view(toks@);
    let mut i: usize = 0;
    let mut g = Geometry::empty();
    while i < toks.len()
        invariant
            i <= toks.len(),
            g@ == ws_fold(evs.take(i as int)),
            evs == events_view(toks@),
        decreases toks.len() - i,
    {
        let ghost k = i;
        assert(evs[k as int] == toks@[k as int]@);
        match &toks[i] {
            XmlEvent::Start(t) => {
                ws_open_exec(&mut g, t);
                assert(evs.take((k + 1) as int).drop_last() =~= evs.take(k as int));
            },
            XmlEvent::Empty(t) => {
                ws_open_exec(&mut g, t);
                assert(evs.take((k + 1) as int).drop_last() =~= evs.take(k as int));
            },
            _ => {
                assert(evs.take((k + 1) as int).drop_last() =~= evs.take(k as int));
            },
        }
        i += 1;
    }
    assert(evs.take(toks.len() as int) =~= evs);
    g
}

// ------------------------------------------------------------------------
// Cell formats
// ------------------------------------------------------------------------

/// A colour reference: its RGB and, when it is a number, the `tint`
/// attribute text (a lightening or darkening applied where the colour is
/// painted).
pub struct ColorRef {
    pub base: Color,
    pub tint: Option<String>,
}

/// Spec value of a [`ColorRef`].
pub struct ColorRefView {
    pub base: Color,
    pub tint: Option<Seq<char>>,
}

impl View for ColorRef {
    type V = ColorRefView;

    open spec fn view(&self) -> ColorRefView {
        ColorRefView { base: self.base, tint: opt_view(self.tint) }
    }
}

/// Spec value of an optional colour reference.
pub open spec fn ocolor(o: Option<ColorRef>) -> Option<ColorRefView> {
    match o {
        Some(c) => Some(c@),
        None => None,
    }
}

fn copy_opt_string(o: &Option<String>) -> (r: Option<String>)
    ensures
        opt_view(r) == opt_view(*o),
{
    match o {
        Some(s) => Some(string_of(chars_of(s.as_str()).as_slice())),
        None => None,
    }
}

impl ColorRef {
    /// A copy of the reference.
    pub fn copy(&self) -> (r: ColorRef)
        ensures
            r@ == self@,
    {
        ColorRef { base: self.base, tint: copy_opt_string(&self.tint) }
    }
}

fn copy_ocolor(o: &Option<ColorRef>) -> (r: Option<ColorRef>)
    ensures
        ocolor(r) == ocolor(*o),
{
    match o {
        Some(c) => Some(c.copy()),
        None => None,
    }
}

/// An attribute that is a number (`str::parse::<f32>` accepts it), as
/// written; `None` when absent or not a number.
pub open spec fn num_attr(t: XmlTagView, key: Seq<char>) -> Option<Seq<char>> {
    match tag_attr(t, key) {
        Some(v) => if float_text(v) {
            Some(v)
        } else {
            None
        },
        None => None,
    }
}

pub fn num_attr_exec(t: &XmlTag, key: &str) -> (r: Option<String>)
    ensures
        opt_view(r) == num_attr(t@, key@),
{
    match get_attr(t, key) {
        Some(v) => if is_float_text(chars_of(v.as_str()).as_slice()) {
            Some(v)
        } else {
            None
        },
        None => None,
    }
}

/// `RRGGBB` or `AARRGGBB` (alpha dropped), over the UTF-8 bytes of the text.
pub open spec fn rgb_of_argb(h: Seq<char>) -> Option<Color> {
    let b = vstd::utf8::encode_utf8(h);
    let hb = if b.len() == 8 {
        b.skip(2)
    } else {
        b
    };
    if hb.len() == 6 {
        rgb_hex(hb)
    } else {
        None
    }
}

/// Colour of a `<color>`/`<fgColor>` element: its trimmed `rgb` when that is
/// six (or eight) hex digits, else its `theme` palette entry.
pub open spec fn spec_color_ref(t: XmlTagView) -> Option<ColorRefView> {
    let tint = num_attr(t, "tint"@);
    let from_rgb = match tag_attr(t, "rgb"@) {
        Some(v) => rgb_of_argb(trim(v)),
        None => None,
    };
    match from_rgb {
        Some(c) => Some(ColorRefView { base: c, tint }),
        None => match attr_u32(t, "theme"@) {
            Some(i) => Some(ColorRefView { base: spec_theme_color(i), tint }),
            None => None,
        },
    }
}

fn rgb_of_argb_exec(h: &str) -> (r: Option<Color>)
    ensures
        r == rgb_of_argb(h@),
{
    let b = h.as_bytes();
    proof {
        assert(b@ == vstd::utf8::encode_utf8(h@));
    }
    let lo: usize = if b.len() == 8 {
        2
    } else {
        0
    };
    if b.len() - lo != 6 {
        return None;
    }
    assert(b@.skip(lo as int).len() == 6);
    let r = crate::color::hex_pair(b[lo], b[lo + 1]);
    let g = crate::color::hex_pair(b[lo + 2], b[lo + 3]);
    let bl = crate::color::hex_pair(b[lo + 4], b[lo + 5]);
    assert(b@.skip(lo as int)[0] == b@[lo as int]);
    match (r, g, bl) {
        (Some(r), Some(g), Some(bl)) => Some(Color { r, g, b: bl, a: 255 }),
        _ => None,
    }
}

/// The colour of a spreadsheet colour element.
pub fn color_ref(t: &XmlTag) -> (r: Option<ColorRef>)
    ensures
        ocolor(r) == spec_color_ref(t@),
{
    let from_rgb = match get_attr(t, "rgb") {
        Some(v) => {
            let tv = trim_chars(chars_of(v.as_str()).as_slice());
            let ts = string_of(tv.as_slice());
            rgb_of_argb_exec(ts.as_str())
        },
        None => None,
    };
    match from_rgb {
        Some(c) => Some(ColorRef { base: c, tint: num_attr_exec(t, "tint") }),
        None => match get_attr_u32(t, "theme") {
            Some(i) => Some(ColorRef { base: theme_color(i), tint: num_attr_exec(t, "tint") }),
            None => None,
        },
    }
}

/// Font of a cell format: bold, the `sz` text (points) when it is a number,
/// and the colour.
pub struct FontStyle {
    pub bold: bool,
    pub size: Option<String>,
    pub color: Option<ColorRef>,
}

/// Spec value of a [`FontStyle`].
pub struct FontStyleView {
    pub bold: bool,
    pub size: Option<Seq<char>>,
    pub color: Option<ColorRefView>,
}

impl View for FontStyle {
    type V = FontStyleView;

    open spec fn view(&self) -> FontStyleView {
        FontStyleView { bold: self.bold, size: opt_view(self.size), color: ocolor(self.color) }
    }
}

/// The default font: regular, no size, no colour.
pub open spec fn default_font() -> FontStyleView {
    FontStyleView { bold: false, size: None, color: None }
}

impl FontStyle {
    /// The default font.
    pub fn plain() -> (f: FontStyle)
        ensures
            f@ == default_font(),
    {
        FontStyle { bold: false, size: None, color: None }
    }

    /// A copy of the font.
    pub fn copy(&self) -> (r: FontStyle)
        ensures
            r@ == self@,
    {
        FontStyle { bold: self.bold, size: copy_opt_string(&self.size), color: copy_ocolor(&self.color) }
    }
}

/// A resolved cell format.
pub struct Xf {
    pub fmt_code: String,
    pub font: FontStyle,
    pub fill: Option<ColorRef>,
    pub border: BorderEdges,
    pub h_align: Option<HAlign>,
}

/// Spec value of an [`Xf`].
pub struct XfView {
    pub fmt_code: Seq<char>,
    pub font: FontStyleView,
    pub fill: Option<ColorRefView>,
    pub border: BorderEdges,
    pub h_align: Option<HAlign>,
}

impl View for Xf {
    type V = XfView;

    open spec fn view(&self) -> XfView {
        XfView {
            fmt_code: self.fmt_code@,
            font: self.font@,
            fill: ocolor(self.fill),
            border: self.border,
            h_align: self.h_align,
        }
    }
}

/// Section of `styles.xml` being read.
#[derive(Clone, Copy, PartialEq, Eq, Structural)]
pub enum Sec {
    Outside,
    Fonts,
    Fills,
    Borders,
    CellXfs,
}

/// A `<xf>` of `cellXfs` as written: number format, font, fill and border
/// indices, and horizontal alignment.
pub type XfRaw = (u32, usize, usize, usize, Option<HAlign>);

/// State of the `styles.xml` scan.
pub struct StylesView {
    pub num_fmts: Seq<(u32, Seq<char>)>,
    pub fonts: Seq<FontStyleView>,
    pub fills: Seq<Option<ColorRefView>>,
    pub borders: Seq<BorderEdges>,
    pub xf_raw: Seq<XfRaw>,
    pub cur_font: FontStyleView,
    pub cur_fill: Option<ColorRefView>,
    pub cur_fill_solid: bool,
    pub cur_border: BorderEdges,
    pub cur_xf: Option<XfRaw>,
    pub sec: Sec,
}

/// No borders.
pub open spec fn no_border() -> BorderEdges {
    BorderEdges { left: false, right: false, top: false, bottom: false }
}

/// An attribute read as a `usize`, or 0.
pub open spec fn attr_usize_or0(t: XmlTagView, key: Seq<char>) -> usize {
    match tag_attr(t, key) {
        Some(v) => match parse_unsigned(v, usize::MAX as nat) {
            Some(n) => n as usize,
            None => 0,
        },
        None => 0,
    }
}

/// The `<xf>` of a tag, with no alignment yet.
pub open spec fn xf_of_tag(t: XmlTagView) -> XfRaw {
    (
        match attr_u32(t, "numFmtId"@) {
            Some(v) => v,
            None => 0,
        },
        attr_usize_or0(t, "fontId"@),
        attr_usize_or0(t, "fillId"@),
        attr_usize_or0(t, "borderId"@),
        None,
    )
}

/// A start (`empty` false) or empty (`empty` true) tag of `styles.xml`.
pub open spec fn styles_open(st: StylesView, t: XmlTagView, empty: bool) -> StylesView {
    let n = t.name;
    if n == "numFmt"@ {
        match (attr_u32(t, "numFmtId"@), tag_attr(t, "formatCode"@)) {
            (Some(id), Some(code)) => StylesView { num_fmts: st.num_fmts.push((id, code)), ..st },
            _ => st,
        }
    } else if n == "fonts"@ {
        StylesView { sec: Sec::Fonts, ..st }
    } else if n == "fills"@ {
        StylesView { sec: Sec::Fills, ..st }
    } else if n == "borders"@ {
        StylesView { sec: Sec::Borders, ..st }
    } else if n == "cellXfs"@ {
        StylesView { sec: Sec::CellXfs, ..st }
    } else if n == "font"@ && st.sec == Sec::Fonts {
        StylesView {
            cur_font: default_font(),
            fonts: if empty {
                st.fonts.push(default_font())
            } else {
                st.fonts
            },
            ..st
        }
    } else if n == "b"@ && st.sec == Sec::Fonts {
        StylesView {
            cur_font: FontStyleView { bold: tag_attr(t, "val"@) != Some("0"@), ..st.cur_font },
            ..st
        }
    } else if n == "sz"@ && st.sec == Sec::Fonts {
        StylesView { cur_font: FontStyleView { size: num_attr(t, "val"@), ..st.cur_font }, ..st }
    } else if n == "color"@ && st.sec == Sec::Fonts {
        match spec_color_ref(t) {
            Some(c) => StylesView {
                cur_font: FontStyleView { color: Some(c), ..st.cur_font },
                ..st
            },
            None => st,
        }
    } else if n == "fill"@ && st.sec == Sec::Fills {
        StylesView {
            cur_fill: None,
            cur_fill_solid: false,
            fills: if empty {
                st.fills.push(None)
            } else {
                st.fills
            },
            ..st
        }
    } else if n == "patternFill"@ && st.sec == Sec::Fills {
        StylesView { cur_fill_solid: tag_attr(t, "patternType"@) == Some("solid"@), ..st }
    } else if n == "fgColor"@ && st.sec == Sec::Fills && st.cur_fill_solid {
        StylesView { cur_fill: spec_color_ref(t), ..st }
    } else if n == "border"@ && st.sec == Sec::Borders {
        StylesView {
            cur_border: no_border(),
            borders: if empty {
                st.borders.push(no_border())
            } else {
                st.borders
            },
            ..st
        }
    } else if (n == "left"@ || n == "right"@ || n == "top"@ || n == "bottom"@) && st.sec
        == Sec::Borders {
        let has = match tag_attr(t, "style"@) {
            Some(s) => s != "none"@,
            None => false,
        };
        let b = st.cur_border;
        StylesView {
            cur_border: if n == "left"@ {
                BorderEdges { left: has, ..b }
            } else if n == "right"@ {
                BorderEdges { right: has, ..b }
            } else if n == "top"@ {
                BorderEdges { top: has, ..b }
            } else {
                BorderEdges { bottom: has, ..b }
            },
            ..st
        }
    } else if n == "xf"@ && st.sec == Sec::CellXfs {
        if empty {
            StylesView { xf_raw: st.xf_raw.push(xf_of_tag(t)), ..st }
        } else {
            StylesView { cur_xf: Some(xf_of_tag(t)), ..st }
        }
    } else if n == "alignment"@ && st.sec == Sec::CellXfs {
        match st.cur_xf {
            Some(x) => StylesView {
                cur_xf: Some(
                    (
                        x.0,
                        x.1,
                        x.2,
                        x.3,
                        match tag_attr(t, "horizontal"@) {
                            Some(h) => spec_h_align(h),
                            None => None,
                        },
                    ),
                ),
                ..st
            },
            None => st,
        }
    } else {
        st
    }
}

/// An end tag of `styles.xml`.
pub open spec fn styles_close(st: StylesView, n: Seq<char>) -> StylesView {
    if n == "fonts"@ || n == "fills"@ || n == "borders"@ || n == "cellXfs"@ {
        StylesView { sec: Sec::Outside, ..st }
    } else if n == "font"@ && st.sec == Sec::Fonts {
        StylesView { fonts: st.fonts.push(st.cur_font), ..st }
    } else if n == "fill"@ && st.sec == Sec::Fills {
        StylesView { fills: st.fills.push(st.cur_fill), cur_fill: None, ..st }
    } else if n == "border"@ && st.sec == Sec::Borders {
        StylesView { borders: st.borders.push(st.cur_border), ..st }
    } else if n == "xf"@ && st.sec == Sec::CellXfs {
        match st.cur_xf {
            Some(x) => StylesView { xf_raw: st.xf_raw.push(x), cur_xf: None, ..st },
            None => st,
        }
    } else {
        st
    }
}

/// One token of `styles.xml`.
pub open spec fn styles_step(st: StylesView, ev: XmlEventView) -> StylesView {
    match ev {
        XmlEventView::Start(t) => styles_open(st, t, false),
        XmlEventView::Empty(t) => styles_open(st, t, true),
        XmlEventView::End(n, _) => styles_close(st, n),
        _ => st,
    }
}

/// The start of the `styles.xml` scan.
pub open spec fn styles_start() -> StylesView {
    StylesView {
        num_fmts: Seq::empty(),
        fonts: Seq::empty(),
        fills: Seq::empty(),
        borders: Seq::empty(),
        xf_raw: Seq::empty(),
        cur_font: default_font(),
        cur_fill: None,
        cur_fill_solid: false,
        cur_border: no_border(),
        cur_xf: None,
        sec: Sec::Outside,
    }
}

/// The `styles.xml` scan over a token sequence.
pub open spec fn styles_fold(evs: Seq<XmlEventView>) -> StylesView
    decreases evs.len(),
{
    if evs.len() == 0 {
        styles_start()
    } else {
        styles_step(styles_fold(evs.drop_last()), evs.last())
    }
}

/// The code of number format `id`: the last `<numFmt>` for it, else built in.
pub open spec fn num_fmt_code(num_fmts: Seq<(u32, Seq<char>)>, id: u32) -> Seq<char>
    decreases num_fmts.len(),
{
    if num_fmts.len() == 0 {
        spec_builtin_format(id)
    } else if num_fmts.last().0 == id {
        num_fmts.last().1
    } else {
        num_fmt_code(num_fmts.drop_last(), id)
    }
}

/// A cell format resolved against the format tables (missing entries give
/// the defaults).
pub open spec fn resolve_xf(st: StylesView, x: XfRaw) -> XfView {
    XfView {
        fmt_code: num_fmt_code(st.num_fmts, x.0),
        font: if x.1 < st.fonts.len() {
            st.fonts[x.1 as int]
        } else {
            default_font()
        },
        fill: if x.2 < st.fills.len() {
            st.fills[x.2 as int]
        } else {
            None
        },
        border: if x.3 < st.borders.len() {
            st.borders[x.3 as int]
        } else {
            no_border()
        },
        h_align: x.4,
    }
}

/// The cell formats of a `styles.xml` token sequence, in `cellXfs` order.
pub open spec fn spec_styles(evs: Seq<XmlEventView>) -> Seq<XfView> {
    let st = styles_fold(evs);
    st.xf_raw.map_values(|x: XfRaw| resolve_xf(st, x))
}

struct StylesState {
    num_fmts: Vec<(u32, String)>,
    fonts: Vec<FontStyle>,
    fills: Vec<Option<ColorRef>>,
    borders: Vec<BorderEdges>,
    xf_raw: Vec<XfRaw>,
    cur_font: FontStyle,
    cur_fill: Option<ColorRef>,
    cur_fill_solid: bool,
    cur_border: BorderEdges,
    cur_xf: Option<XfRaw>,
    sec: Sec,
}

impl View for StylesState {
    type V = StylesView;

    closed spec fn view(&self) -> StylesView {
        StylesView {
            num_fmts: self.num_fmts@.map_values(|e: (u32, String)| (e.0, e.1@)),
            fonts: self.fonts@.map_values(|f: FontStyle| f@),
            fills: self.fills@.map_values(|f: Option<ColorRef>| ocolor(f)),
            borders: self.borders@,
            xf_raw: self.xf_raw@,
            cur_font: self.cur_font@,
            cur_fill: ocolor(self.cur_fill),
            cur_fill_solid: self.cur_fill_solid,
            cur_border: self.cur_border,
            cur_xf: self.cur_xf,
            sec: self.sec,
        }
    }
}

fn attr_usize_or0_exec(t: &XmlTag, key: &str) -> (r: usize)
    ensures
        r == attr_usize_or0(t@, key@),
{
    match get_attr(t, key) {
        Some(v) => {
            let cs = chars_of(v.as_str());
            match crate::chars::parse_unsigned_chars(cs.as_slice(), usize::MAX as u64) {
                Some(n) => n as usize,
                None => 0,
            }
        },
        None => 0,
    }
}

fn xf_of_tag_exec(t: &XmlTag) -> (x: XfRaw)
    ensures
        x == xf_of_tag(t@),
{
    (
        match get_attr_u32(t, "numFmtId") {
            Some(v) => v,
            None => 0,
        },
        attr_usize_or0_exec(t, "fontId"),
        attr_usize_or0_exec(t, "fillId"),
        attr_usize_or0_exec(t, "borderId"),
        None,
    )
}

fn attr_eq(t: &XmlTag, key: &str, want: &str) -> (b: bool)
    ensures
        b == (tag_attr(t@, key@) == Some(want@)),
{
    match get_attr(t, key) {
        Some(v) => str_eq(v.as_str(), want),
        None => false,
    }
}

fn styles_open_exec(st: &mut StylesState, t: &XmlTag, empty: bool)
    ensures
        final(st)@ == styles_open(old(st)@, t@, empty),
{
    let n = t.name.as_str();
    if str_eq(n, "numFmt") {
        match (get_attr_u32(t, "numFmtId"), get_attr(t, "formatCode")) {
            (Some(id), Some(code)) => {
                let ghost before = st@.num_fmts;
                let ghost cv = code@;
                st.num_fmts.push((id, code));
                assert(st@.num_fmts =~= before.push((id, cv)));
            },
            _ => {},
        }
    } else if str_eq(n, "fonts") {
        st.sec = Sec::Fonts;
    } else if str_eq(n, "fills") {
        st.sec = Sec::Fills;
    } else if str_eq(n, "borders") {
        st.sec = Sec::Borders;
    } else if str_eq(n, "cellXfs") {
        st.sec = Sec::CellXfs;
    } else if str_eq(n, "font") && st.sec == Sec::Fonts {
        st.cur_font = FontStyle::plain();
        if empty {
            let ghost before = st@.fonts;
            st.fonts.push(FontStyle::plain());
            assert(st@.fonts =~= before.push(default_font()));
        }
    } else if str_eq(n, "b") && st.sec == Sec::Fonts {
        st.cur_font.bold = !attr_eq(t, "val", "0");
    } else if str_eq(n, "sz") && st.sec == Sec::Fonts {
        st.cur_font.size = num_attr_exec(t, "val");
    } else if str_eq(n, "color") && st.sec == Sec::Fonts {
        match color_ref(t) {
            Some(c) => {
                st.cur_font.color = Some(c);
            },
            None => {},
        }
    } else if str_eq(n, "fill") && st.sec == Sec::Fills {
        st.cur_fill = None;
        st.cur_fill_solid = false;
        if empty {
            let ghost before = st@.fills;
            st.fills.push(None);
            assert(st@.fills =~= before.push(None));
        }
    } else if str_eq(n, "patternFill") && st.sec == Sec::Fills {
        st.cur_fill_solid = attr_eq(t, "patternType", "solid");
    } else if str_eq(n, "fgColor") && st.sec == Sec::Fills && st.cur_fill_solid {
        st.cur_fill = color_ref(t);
    } else if str_eq(n, "border") && st.sec == Sec::Borders {
        st.cur_border = BorderEdges { left: false, right: false, top: false, bottom: false };
        if empty {
            st.borders.push(BorderEdges { left: false, right: false, top: false, bottom: false });
        }
    } else if (str_eq(n, "left") || str_eq(n, "right") || str_eq(n, "top") || str_eq(n, "bottom"))
        && st.sec == Sec::Borders {
        let has = match get_attr(t, "style") {
            Some(s) => !str_eq(s.as_str(), "none"),
            None => false,
        };
        if str_eq(n, "left") {
            st.cur_border.left = has;
        } else if str_eq(n, "right") {
            st.cur_border.right = has;
        } else if str_eq(n, "top") {
            st.cur_border.top = has;
        } else {
            st.cur_border.bottom = has;
        }
    } else if str_eq(n, "xf") && st.sec == Sec::CellXfs {
        let x = xf_of_tag_exec(t);
        if empty {
            st.xf_raw.push(x);
        } else {
            st.cur_xf = Some(x);
        }
    } else if str_eq(n, "alignment") && st.sec == Sec::CellXfs {
        match st.cur_xf {
            Some(x) => {
                let h = match get_attr(t, "horizontal") {
                    Some(h) => h_align(h.as_str()),
                    None => None,
                };
                st.cur_xf = Some((x.0, x.1, x.2, x.3, h));
            },
            None => {},
        }
    }
}

fn styles_close_exec(st: &mut StylesState, name: &String)
    ensures
        final(st)@ == styles_close(old(st)@, name@),
{
    let n = name.as_str();
    if str_eq(n, "fonts") || str_eq(n, "fills") || str_eq(n, "borders") || str_eq(n, "cellXfs") {
        st.sec = Sec::Outside;
    } else if str_eq(n, "font") && st.sec == Sec::Fonts {
        let ghost before = st@.fonts;
        let f = st.cur_font.copy();
        st.fonts.push(f);
        assert(st@.fonts =~= before.push(old(st)@.cur_font));
    } else if str_eq(n, "fill") && st.sec == Sec::Fills {
        let ghost before = st@.fills;
        let mut f: Option<ColorRef> = None;
        std::mem::swap(&mut f, &mut st.cur_fill);
        st.fills.push(f);
        assert(st@.fills =~= before.push(old(st)@.cur_fill));
    } else if str_eq(n, "border") && st.sec == Sec::Borders {
        let b = st.cur_border;
        st.borders.push(b);
    } else if str_eq(n, "xf") && st.sec == Sec::CellXfs {
        match st.cur_xf {
            Some(x) => {
                st.xf_raw.push(x);
                st.cur_xf = None;
            },
            None => {},
        }
    }
}

fn num_fmt_code_exec(st: &StylesState, id: u32) -> (s: String)
    ensures
        s@ == num_fmt_code(st@.num_fmts, id),
{
    let ghost v = st@.num_fmts;
    let mut i = st.num_fmts.len();
    assert(v.take(i as int) =~= v);
    while i > 0
        invariant
            i <= st.num_fmts.len(),
            v == st@.num_fmts,
            num_fmt_code(v, id) == num_fmt_code(v.take(i as int), id),
        decreases i,
    {
        assert(v.take(i as int).drop_last() =~= v.take(i - 1));
        assert(v.take(i as int).last() == (st.num_fmts@[i - 1].0, st.num_fmts@[i - 1].1@));
        if st.num_fmts[i - 1].0 == id {
            return string_of(chars_of(st.num_fmts[i - 1].1.as_str()).as_slice());
        }
        i -= 1;
    }
    assert(v.take(0) =~= Seq::<(u32, Seq<char>)>::empty());
    string_of(chars_of(builtin_format(id)).as_slice())
}

fn resolve_xf_exec(st: &StylesState, x: XfRaw) -> (r: Xf)
    ensures
        r@ == resolve_xf(st@, x),
{
    let fmt_code = num_fmt_code_exec(st, x.0);
    let font = if x.1 < st.fonts.len() {
        st.fonts[x.1].copy()
    } else {
        FontStyle::plain()
    };
    let fill = if x.2 < st.fills.len() {
        copy_ocolor(&st.fills[x.2])
    } else {
        None
    };
    let border = if x.3 < st.borders.len() {
        st.borders[x.3]
    } else {
        BorderEdges { left: false, right: false, top: false, bottom: false }
    };
    Xf { fmt_code, font, fill, border, h_align: x.4 }
}

/// Cell formats of `styles.xml`, in `cellXfs` order.
pub fn parse_styles(xml: &str) -> (r: Vec<Xf>)
    ensures
        r@.map_values(|x: Xf| x@) == spec_styles(xml_events(xml@)),
{
    let toks = xml_tokens(xml);
    parse_styles_events(toks.as_slice())
}

/// What [`parse_styles`] computes, from the tokens `toks` of the text.
pub fn parse_styles_events(toks: &[XmlEvent]) -> (r: Vec<Xf>)
    ensures
        r@.map_values(|x: Xf| x@) == spec_styles(events_view(toks@)),
{
    let ghost evs = events_view(toks@);
    let mut i: usize = 0;
    let mut st = StylesState {
        num_fmts: Vec::new(),
        fonts: Vec::new(),
        fills: Vec::new(),
        borders: Vec::new(),
        xf_raw: Vec::new(),
        cur_font: FontStyle::plain(),
        cur_fill: None,
        cur_fill_solid: false,
        cur_border: BorderEdges { left: false, right: false, top: false, bottom: false },
        cur_xf: None,
        sec: Sec::Outside,
    };
    assert(st@.num_fmts =~= Seq::<(u32, Seq<char>)>::empty());
    assert(st@.fonts =~= Seq::<FontStyleView>::empty());
    assert(st@.fills =~= Seq::<Option<ColorRefView>>::empty());
    assert(st@ =~= styles_start());
    while i < toks.len()
        invariant
            i <= toks.len(),
            st@ == styles_fold(evs.take(i as int)),
            evs == events_view(toks@),
        decreases toks.len() - i,
    {
        let ghost k = i;
        assert(evs[k as int] == toks@[k as int]@);
        match &toks[i] {
            XmlEvent::Start(t) => {
                styles_open_exec(&mut st, t, false);
                assert(evs.take((k + 1) as int).drop_last() =~= evs.take(k as int));
            },
            XmlEvent::Empty(t) => {
                styles_open_exec(&mut st, t, true);
                assert(evs.take((k + 1) as int).drop_last() =~= evs.take(k as int));
            },
            XmlEvent::End(n, _) => {
                styles_close_exec(&mut st, n);
                assert(evs.take((k + 1) as int).drop_last() =~= evs.take(k as int));
            },
            _ => {
                assert(evs.take((k + 1) as int).drop_last() =~= evs.take(k as int));
            },
        }
        i += 1;
    }
    assert(evs.take(toks.len() as int) =~= evs);
    let ghost fin = st@;
    let mut out: Vec<Xf> = Vec::new();
    let mut i: usize = 0;
    while i < st.xf_raw.len()
        invariant
            i <= st.xf_raw.len(),
            st@ == fin,
            out@.map_values(|x: Xf| x@) == fin.xf_raw.take(i as int).map_values(
                |x: XfRaw| resolve_xf(fin, x),
            ),
        decreases st.xf_raw.len() - i,
    {
        let xr = st.xf_raw[i];
        assert(fin.xf_raw[i as int] == xr);
        let xf = resolve_xf_exec(&st, xr);
        let ghost prev = out@.map_values(|x: Xf| x@);
        let ghost xv = xf@;
        out.push(xf);
        assert(out@.map_values(|x: Xf| x@) =~= prev.push(xv));
        assert(fin.xf_raw.take(i + 1).map_values(|x: XfRaw| resolve_xf(fin, x)) =~= fin.xf_raw.take(
            i as int,
        ).map_values(|x: XfRaw| resolve_xf(fin, x)).push(resolve_xf(fin, xr)));
        i += 1;
    }
    assert(fin.xf_raw.take(st.xf_raw.len() as int) =~= fin.xf_raw);
    out
}

// ------------------------------------------------------------------------
// A sheet's layout layer
// ------------------------------------------------------------------------

/// Geometry and cell formats of one sheet.
pub struct Parsed {
    pub geom: Geometry,
    pub xfs: Vec<Xf>,
}

/// Geometry and cell formats of sheet `index` of an `.xlsx` package: the
/// cell formats from `xl/styles.xml` (none when it is missing), the geometry
/// from the sheet's worksheet part (empty when that is missing).
pub open spec fn spec_parsed(archive: Seq<u8>, index: nat) -> (GeometryView, Seq<XfView>) {
    let xfs = match part_text(archive, "xl/styles.xml"@) {
        Some(s) => spec_styles(xml_events(s)),
        None => Seq::empty(),
    };
    let geom = match spec_sheet_path(archive, index) {
        Some(p) => match part_text(archive, p) {
            Some(x) => ws_fold(xml_events(x)),
            None => empty_geometry(),
        },
        None => empty_geometry(),
    };
    (geom, xfs)
}

/// Parses the layout layer of one sheet.
pub fn parse(bytes: &[u8], sheet_index: usize) -> (r: Parsed)
    ensures
        (r.geom@, r.xfs@.map_values(|x: Xf| x@)) == spec_parsed(bytes@, sheet_index as nat),
{
    let xfs = match read_part_text(bytes, "xl/styles.xml") {
        Some(s) => parse_styles(s.as_str()),
        None => {
            let v: Vec<Xf> = Vec::new();
            assert(v@.map_values(|x: Xf| x@) =~= Seq::<XfView>::empty());
            v
        },
    };
    let geom = match sheet_path(bytes, sheet_index) {
        Some(p) => match read_part_text(bytes, p.as_str()) {
            Some(x) => parse_worksheet(x.as_str()),
            None => Geometry::empty(),
        },
        None => Geometry::empty(),
    };
    Parsed { geom, xfs }
}

// ------------------------------------------------------------------------
// Sheet names
// ------------------------------------------------------------------------

/// The characters of each name.
pub open spec fn names_view(v: Seq<String>) -> Seq<Seq<char>> {
    v.map_values(|s: String| s@)
}

/// The sheet names, in workbook order, that calamine's `Xlsx` reader lists
/// for `bytes`, or `None` when the bytes do not open as an xlsx workbook.
pub uninterp spec fn workbook_sheets(bytes: Seq<u8>) -> Option<Seq<Seq<char>>>;

/// Opens `bytes` with `calamine::open_workbook_from_rs` as `Xlsx` and
/// returns its `sheet_names`; `None` when it does not open.
#[verifier::external_body]
fn calamine_sheet_names(bytes: &[u8]) -> (r: Option<Vec<String>>)
    ensures
        match r {
            Some(v) => workbook_sheets(bytes@) == Some(names_view(v@)),
            None => workbook_sheets(bytes@) is None,
        },
{
    let cursor = std::io::Cursor::new(bytes.to_vec());
    let wb: calamine::Xlsx<std::io::Cursor<Vec<u8>>> = calamine::open_workbook_from_rs(cursor).ok()?;
    Some(calamine::Reader::sheet_names(&wb))
}

/// Sheet names of an xlsx workbook in order (empty when the bytes are not a
/// readable workbook).
pub fn sheet_names(bytes: &[u8]) -> (r: Vec<String>)
    ensures
        names_view(r@) == match workbook_sheets(bytes@) {
            Some(n) => n,
            None => Seq::empty(),
        },
{
    match calamine_sheet_names(bytes) {
        Some(v) => v,
        None => {
            let v: Vec<String> = Vec::new();
            assert(names_view(v@) =~= Seq::<Seq<char>>::empty());
            v
        },
    }
}

} // verus!
