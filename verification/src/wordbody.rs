//! The body of a Word document (`word/document.xml`, and header and footer
//! parts): paragraphs with their direct properties and runs, tables with
//! rows, cells, borders and shading, floating drawings (text boxes,
//! autoshapes, connectors, pictures) with their group transforms, section
//! page geometry and header/footer references.
//!
//! Lengths stay as the attribute texts (twips, EMU, eighths of a point) and
//! are read as numbers where the page is laid out; a length is kept only when
//! its text reads as a number. Paragraphs and tables live in two lists;
//! the body, table cells and text boxes hold references into them, in order.

use vstd::prelude::*;
use crate::chars::{chars_of, float_text, is_float_text, lower_is, lower_seq, string_of, trim, trim_chars};
use crate::color::{Color, highlight_color, spec_highlight, spec_word_color, word_color};
use crate::image::{DecodedImage, ImageView, decode, spec_decode};
use crate::package::{Rels, rel_target, resolve_rel, spec_resolve_rel};
use crate::text::{contains_sub, has_sub};
use crate::wordstyle::{FontSize, FontSizeView, ParaAlign, RPr, RPrView, no_rpr};
use crate::xml::{
    events_view, xml_tokens,
    XmlEvent, XmlEventView, XmlTag, XmlTagView, attr_u32, get_attr, get_attr_u32, opt_view,
    read_zip_entry, str_eq, tag_attr, xml_events, zip_entry,
};

verus! {

// ------------------------------------------------------------------------
// The model
// ------------------------------------------------------------------------

/// A paragraph or a table, by its index in the document's lists.
#[derive(Clone, Copy, Debug, PartialEq, Eq, Structural)]
pub enum BlockRef {
    Para(usize),
    Table(usize),
}

/// A run: its text (`\t` for a tab, `\n` for a line break), direct
/// properties and character style.
pub struct DRun {
    pub text: String,
    pub direct: RPr,
    pub r_style: Option<String>,
}

/// Spec value of a [`DRun`].
pub struct RunView {
    pub text: Seq<char>,
    pub direct: RPrView,
    pub r_style: Option<Seq<char>>,
}

impl View for DRun {
    type V = RunView;

    open spec fn view(&self) -> RunView {
        RunView { text: self.text@, direct: self.direct@, r_style: opt_view(self.r_style) }
    }
}

/// One border side: visible, colour, and `w:sz` (eighths of a point) as
/// written.
#[derive(Clone, Debug)]
pub struct Border {
    pub on: bool,
    pub color: Color,
    pub size: Option<String>,
}

/// Spec value of a [`Border`].
pub struct BorderView {
    pub on: bool,
    pub color: Color,
    pub size: Option<Seq<char>>,
}

impl View for Border {
    type V = BorderView;

    open spec fn view(&self) -> BorderView {
        BorderView { on: self.on, color: self.color, size: opt_view(self.size) }
    }
}

/// The border that is not drawn.
pub open spec fn no_border() -> BorderView {
    BorderView { on: false, color: Color { r: 0, g: 0, b: 0, a: 255 }, size: None }
}

/// Borders of a table or cell.
pub struct BorderSet {
    pub top: Border,
    pub bottom: Border,
    pub left: Border,
    pub right: Border,
    pub inside_h: Border,
    pub inside_v: Border,
}

/// Spec value of a [`BorderSet`].
pub struct BorderSetView {
    pub top: BorderView,
    pub bottom: BorderView,
    pub left: BorderView,
    pub right: BorderView,
    pub inside_h: BorderView,
    pub inside_v: BorderView,
}

impl View for BorderSet {
    type V = BorderSetView;

    open spec fn view(&self) -> BorderSetView {
        BorderSetView {
            top: self.top@,
            bottom: self.bottom@,
            left: self.left@,
            right: self.right@,
            inside_h: self.inside_h@,
            inside_v: self.inside_v@,
        }
    }
}

/// No borders.
pub open spec fn no_borders() -> BorderSetView {
    BorderSetView {
        top: no_border(),
        bottom: no_border(),
        left: no_border(),
        right: no_border(),
        inside_h: no_border(),
        inside_v: no_border(),
    }
}

/// A group's `a:xfrm` in its `wpg:grpSpPr`: offset, extent, child offset
/// and child extent, each coordinate as written (absent or not a number
/// reads as the default: 0 for offsets, 1 for extents).
pub struct GroupXfrm {
    pub off_x: Option<String>,
    pub off_y: Option<String>,
    pub ext_cx: Option<String>,
    pub ext_cy: Option<String>,
    pub ch_x: Option<String>,
    pub ch_y: Option<String>,
    pub ch_cx: Option<String>,
    pub ch_cy: Option<String>,
}

/// Spec value of a [`GroupXfrm`].
pub struct GroupXfrmView {
    pub off_x: Option<Seq<char>>,
    pub off_y: Option<Seq<char>>,
    pub ext_cx: Option<Seq<char>>,
    pub ext_cy: Option<Seq<char>>,
    pub ch_x: Option<Seq<char>>,
    pub ch_y: Option<Seq<char>>,
    pub ch_cx: Option<Seq<char>>,
    pub ch_cy: Option<Seq<char>>,
}

impl View for GroupXfrm {
    type V = GroupXfrmView;

    open spec fn view(&self) -> GroupXfrmView {
        GroupXfrmView {
            off_x: opt_view(self.off_x),
            off_y: opt_view(self.off_y),
            ext_cx: opt_view(self.ext_cx),
            ext_cy: opt_view(self.ext_cy),
            ch_x: opt_view(self.ch_x),
            ch_y: opt_view(self.ch_y),
            ch_cx: opt_view(self.ch_cx),
            ch_cy: opt_view(self.ch_cy),
        }
    }
}

/// The transform with every coordinate at its default.
pub open spec fn blank_xfrm() -> GroupXfrmView {
    GroupXfrmView {
        off_x: None,
        off_y: None,
        ext_cx: None,
        ext_cy: None,
        ch_x: None,
        ch_y: None,
        ch_cx: None,
        ch_cy: None,
    }
}

/// One drawable of a floating anchor: its `a:off`/`a:ext` in the innermost
/// group's coordinates (EMU at the top level), fill and outline colours,
/// preset geometry flags and flips, its text-box paragraphs, the group
/// transforms it sits in (outermost first), and the anchor's picture extent
/// when the shape ended (used for a shape without an extent).
pub struct DShape {
    pub x: Option<String>,
    pub y: Option<String>,
    pub w: Option<String>,
    pub h: Option<String>,
    pub fill: Option<Color>,
    pub outline: Option<Color>,
    pub rounded: bool,
    pub is_line: bool,
    pub flip_v: bool,
    pub flip_h: bool,
    pub blocks: Vec<BlockRef>,
    pub groups: Vec<GroupXfrm>,
    pub img_cx: Option<String>,
    pub img_cy: Option<String>,
}

/// Spec value of a [`DShape`].
pub struct ShapeView {
    pub x: Option<Seq<char>>,
    pub y: Option<Seq<char>>,
    pub w: Option<Seq<char>>,
    pub h: Option<Seq<char>>,
    pub fill: Option<Color>,
    pub outline: Option<Color>,
    pub rounded: bool,
    pub is_line: bool,
    pub flip_v: bool,
    pub flip_h: bool,
    pub blocks: Seq<BlockRef>,
    pub groups: Seq<GroupXfrmView>,
    pub img_cx: Option<Seq<char>>,
    pub img_cy: Option<Seq<char>>,
}

/// Spec values of group transforms.
pub open spec fn xfrms_view(v: Seq<GroupXfrm>) -> Seq<GroupXfrmView> {
    v.map_values(|g: GroupXfrm| g@)
}

impl View for DShape {
    type V = ShapeView;

    open spec fn view(&self) -> ShapeView {
        ShapeView {
            x: opt_view(self.x),
            y: opt_view(self.y),
            w: opt_view(self.w),
            h: opt_view(self.h),
            fill: self.fill,
            outline: self.outline,
            rounded: self.rounded,
            is_line: self.is_line,
            flip_v: self.flip_v,
            flip_h: self.flip_h,
            blocks: self.blocks@,
            groups: xfrms_view(self.groups@),
            img_cx: opt_view(self.img_cx),
            img_cy: opt_view(self.img_cy),
        }
    }
}

/// A new drawable.
pub open spec fn new_shape() -> ShapeView {
    ShapeView {
        x: None,
        y: None,
        w: None,
        h: None,
        fill: None,
        outline: None,
        rounded: false,
        is_line: false,
        flip_v: false,
        flip_h: false,
        blocks: Seq::empty(),
        groups: Seq::empty(),
        img_cx: None,
        img_cy: None,
    }
}

/// A floating anchored drawing (`wp:anchor`): position offsets (EMU, from
/// `wp:posOffset`), its shapes, its picture and picture extent, whether it
/// floats without reserving space, and whether its shapes came through a
/// group.
pub struct DFloat {
    pub off_x: Option<String>,
    pub off_y: Option<String>,
    pub shapes: Vec<DShape>,
    pub image_rid: Option<String>,
    pub img_cx: Option<String>,
    pub img_cy: Option<String>,
    pub behind: bool,
    pub grouped: bool,
}

/// Spec value of a [`DFloat`].
pub struct FloatView {
    pub off_x: Option<Seq<char>>,
    pub off_y: Option<Seq<char>>,
    pub shapes: Seq<ShapeView>,
    pub image_rid: Option<Seq<char>>,
    pub img_cx: Option<Seq<char>>,
    pub img_cy: Option<Seq<char>>,
    pub behind: bool,
    pub grouped: bool,
}

/// Spec values of shapes.
pub open spec fn shapes_view(v: Seq<DShape>) -> Seq<ShapeView> {
    v.map_values(|s: DShape| s@)
}

impl View for DFloat {
    type V = FloatView;

    open spec fn view(&self) -> FloatView {
        FloatView {
            off_x: opt_view(self.off_x),
            off_y: opt_view(self.off_y),
            shapes: shapes_view(self.shapes@),
            image_rid: opt_view(self.image_rid),
            img_cx: opt_view(self.img_cx),
            img_cy: opt_view(self.img_cy),
            behind: self.behind,
            grouped: self.grouped,
        }
    }
}

/// Top and bottom paragraph borders, with the colour and size of the last
/// border side read.
pub struct ParaBorder {
    pub top: bool,
    pub bottom: bool,
    pub color: Color,
    pub size: Option<String>,
}

/// Spec value of a [`ParaBorder`].
pub struct ParaBorderView {
    pub top: bool,
    pub bottom: bool,
    pub color: Color,
    pub size: Option<Seq<char>>,
}

impl View for ParaBorder {
    type V = ParaBorderView;

    open spec fn view(&self) -> ParaBorderView {
        ParaBorderView { top: self.top, bottom: self.bottom, color: self.color, size: opt_view(self.size) }
    }
}

/// A paragraph with its direct properties. Lengths are twips texts, the
/// picture extent EMU texts; `line_exact` is an exact or at-least line
/// height, `line_mult` a `w:spacing` line value in 240ths of a line.
pub struct DPara {
    pub runs: Vec<DRun>,
    pub align: Option<ParaAlign>,
    pub p_style: Option<String>,
    pub num_id: Option<u32>,
    pub num_ilvl: u32,
    pub ind_left: Option<String>,
    pub ind_hanging: Option<String>,
    pub ind_right: Option<String>,
    pub ind_first: Option<String>,
    pub image_rid: Option<String>,
    pub image_cx: Option<String>,
    pub image_cy: Option<String>,
    pub spc_before: Option<String>,
    pub spc_after: Option<String>,
    pub line_mult: Option<String>,
    pub line_exact: Option<String>,
    pub pbdr: ParaBorder,
    pub shd: Option<Color>,
    pub tab_stops: Vec<(String, ParaAlign)>,
    pub page_break_before: bool,
    pub page_break_after: bool,
    pub keep_lines: bool,
    pub floats: Vec<DFloat>,
}

/// Spec value of a [`DPara`].
pub struct ParaView {
    pub runs: Seq<RunView>,
    pub align: Option<ParaAlign>,
    pub p_style: Option<Seq<char>>,
    pub num_id: Option<u32>,
    pub num_ilvl: u32,
    pub ind_left: Option<Seq<char>>,
    pub ind_hanging: Option<Seq<char>>,
    pub ind_right: Option<Seq<char>>,
    pub ind_first: Option<Seq<char>>,
    pub image_rid: Option<Seq<char>>,
    pub image_cx: Option<Seq<char>>,
    pub image_cy: Option<Seq<char>>,
    pub spc_before: Option<Seq<char>>,
    pub spc_after: Option<Seq<char>>,
    pub line_mult: Option<Seq<char>>,
    pub line_exact: Option<Seq<char>>,
    pub pbdr: ParaBorderView,
    pub shd: Option<Color>,
    pub tab_stops: Seq<(Seq<char>, ParaAlign)>,
    pub page_break_before: bool,
    pub page_break_after: bool,
    pub keep_lines: bool,
    pub floats: Seq<FloatView>,
}

/// Spec values of runs.
pub open spec fn runs_view(v: Seq<DRun>) -> Seq<RunView> {
    v.map_values(|r: DRun| r@)
}

/// Spec values of floats.
pub open spec fn floats_view(v: Seq<DFloat>) -> Seq<FloatView> {
    v.map_values(|f: DFloat| f@)
}

/// Spec values of tab stops.
pub open spec fn tabs_view(v: Seq<(String, ParaAlign)>) -> Seq<(Seq<char>, ParaAlign)> {
    v.map_values(|t: (String, ParaAlign)| (t.0@, t.1))
}

impl View for DPara {
    type V = ParaView;

    open spec fn view(&self) -> ParaView {
        ParaView {
            runs: runs_view(self.runs@),
            align: self.align,
            p_style: opt_view(self.p_style),
            num_id: self.num_id,
            num_ilvl: self.num_ilvl,
            ind_left: opt_view(self.ind_left),
            ind_hanging: opt_view(self.ind_hanging),
            ind_right: opt_view(self.ind_right),
            ind_first: opt_view(self.ind_first),
            image_rid: opt_view(self.image_rid),
            image_cx: opt_view(self.image_cx),
            image_cy: opt_view(self.image_cy),
            spc_before: opt_view(self.spc_before),
            spc_after: opt_view(self.spc_after),
            line_mult: opt_view(self.line_mult),
            line_exact: opt_view(self.line_exact),
            pbdr: self.pbdr@,
            shd: self.shd,
            tab_stops: tabs_view(self.tab_stops@),
            page_break_before: self.page_break_before,
            page_break_after: self.page_break_after,
            keep_lines: self.keep_lines,
            floats: floats_view(self.floats@),
        }
    }
}

/// A new paragraph: nothing set.
pub open spec fn new_para() -> ParaView {
    ParaView {
        runs: Seq::empty(),
        align: None,
        p_style: None,
        num_id: None,
        num_ilvl: 0,
        ind_left: None,
        ind_hanging: None,
        ind_right: None,
        ind_first: None,
        image_rid: None,
        image_cx: None,
        image_cy: None,
        spc_before: None,
        spc_after: None,
        line_mult: None,
        line_exact: None,
        pbdr: ParaBorderView { top: false, bottom: false, color: Color { r: 0, g: 0, b: 0, a: 255 }, size: None },
        shd: None,
        tab_stops: Seq::empty(),
        page_break_before: false,
        page_break_after: false,
        keep_lines: false,
        floats: Seq::empty(),
    }
}

/// How a cell takes part in a vertical merge.
#[derive(Clone, Copy, Debug, PartialEq, Eq, Structural)]
pub enum VMerge {
    Alone,
    Restart,
    Continue,
}

/// A table cell: its blocks, grid span (at least 1), vertical merge, own
/// borders, shading and vertical alignment (0 top, 1 centre, 2 bottom).
pub struct DCell {
    pub blocks: Vec<BlockRef>,
    pub grid_span: u32,
    pub vmerge: VMerge,
    pub borders: BorderSet,
    pub shd: Option<Color>,
    pub valign: u8,
}

/// Spec value of a [`DCell`].
pub struct CellView {
    pub blocks: Seq<BlockRef>,
    pub grid_span: u32,
    pub vmerge: VMerge,
    pub borders: BorderSetView,
    pub shd: Option<Color>,
    pub valign: u8,
}

impl View for DCell {
    type V = CellView;

    open spec fn view(&self) -> CellView {
        CellView {
            blocks: self.blocks@,
            grid_span: self.grid_span,
            vmerge: self.vmerge,
            borders: self.borders@,
            shd: self.shd,
            valign: self.valign,
        }
    }
}

/// A new cell.
pub open spec fn new_cell() -> CellView {
    CellView { blocks: Seq::empty(), grid_span: 1, vmerge: VMerge::Alone, borders: no_borders(), shd: None, valign: 0 }
}

/// A table row: cells, minimum height (twips text) and whether it repeats
/// as a header.
pub struct DRow {
    pub cells: Vec<DCell>,
    pub min_h: Option<String>,
    pub is_header: bool,
}

/// Spec value of a [`DRow`].
pub struct RowView {
    pub cells: Seq<CellView>,
    pub min_h: Option<Seq<char>>,
    pub is_header: bool,
}

/// Spec values of cells.
pub open spec fn cells_view(v: Seq<DCell>) -> Seq<CellView> {
    v.map_values(|c: DCell| c@)
}

impl View for DRow {
    type V = RowView;

    open spec fn view(&self) -> RowView {
        RowView { cells: cells_view(self.cells@), min_h: opt_view(self.min_h), is_header: self.is_header }
    }
}

/// A table: grid column widths (twips texts), rows, borders, left indent
/// (twips text) and alignment.
pub struct DTable {
    pub grid: Vec<String>,
    pub rows: Vec<DRow>,
    pub borders: BorderSet,
    pub ind: Option<String>,
    pub align: ParaAlign,
}

/// Spec value of a [`DTable`].
pub struct TableView {
    pub grid: Seq<Seq<char>>,
    pub rows: Seq<RowView>,
    pub borders: BorderSetView,
    pub ind: Option<Seq<char>>,
    pub align: ParaAlign,
}

/// Spec values of strings.
pub open spec fn strs_view(v: Seq<String>) -> Seq<Seq<char>> {
    v.map_values(|s: String| s@)
}

/// Spec values of rows.
pub open spec fn rows_view(v: Seq<DRow>) -> Seq<RowView> {
    v.map_values(|r: DRow| r@)
}

impl View for DTable {
    type V = TableView;

    open spec fn view(&self) -> TableView {
        TableView {
            grid: strs_view(self.grid@),
            rows: rows_view(self.rows@),
            borders: self.borders@,
            ind: opt_view(self.ind),
            align: self.align,
        }
    }
}

/// A new table.
pub open spec fn new_table() -> TableView {
    TableView { grid: Seq::empty(), rows: Seq::empty(), borders: no_borders(), ind: None, align: ParaAlign::Left }
}

/// A document body: paragraphs and tables (referenced by index), the body's
/// blocks in order, page size and margins (twips texts), header and footer
/// references (type, relationship id), and whether the first page has its
/// own header and footer.
pub struct DocModel {
    pub paras: Vec<DPara>,
    pub tables: Vec<DTable>,
    pub body: Vec<BlockRef>,
    pub page_w: Option<String>,
    pub page_h: Option<String>,
    pub margin_l: Option<String>,
    pub margin_r: Option<String>,
    pub margin_t: Option<String>,
    pub margin_b: Option<String>,
    pub header_dist: Option<String>,
    pub footer_dist: Option<String>,
    pub hdr_refs: Vec<(String, String)>,
    pub ftr_refs: Vec<(String, String)>,
    pub title_pg: bool,
}

/// Spec value of a [`DocModel`].
pub struct DocView {
    pub paras: Seq<ParaView>,
    pub tables: Seq<TableView>,
    pub body: Seq<BlockRef>,
    pub page_w: Option<Seq<char>>,
    pub page_h: Option<Seq<char>>,
    pub margin_l: Option<Seq<char>>,
    pub margin_r: Option<Seq<char>>,
    pub margin_t: Option<Seq<char>>,
    pub margin_b: Option<Seq<char>>,
    pub header_dist: Option<Seq<char>>,
    pub footer_dist: Option<Seq<char>>,
    pub hdr_refs: Seq<(Seq<char>, Seq<char>)>,
    pub ftr_refs: Seq<(Seq<char>, Seq<char>)>,
    pub title_pg: bool,
}

/// Spec values of paragraphs.
pub open spec fn paras_view(v: Seq<DPara>) -> Seq<ParaView> {
    v.map_values(|p: DPara| p@)
}

/// Spec values of tables.
pub open spec fn tables_view(v: Seq<DTable>) -> Seq<TableView> {
    v.map_values(|t: DTable| t@)
}

/// Spec values of string pairs.
pub open spec fn pairs_view(v: Seq<(String, String)>) -> Seq<(Seq<char>, Seq<char>)> {
    v.map_values(|p: (String, String)| (p.0@, p.1@))
}

impl View for DocModel {
    type V = DocView;

    open spec fn view(&self) -> DocView {
        DocView {
            paras: paras_view(self.paras@),
            tables: tables_view(self.tables@),
            body: self.body@,
            page_w: opt_view(self.page_w),
            page_h: opt_view(self.page_h),
            margin_l: opt_view(self.margin_l),
            margin_r: opt_view(self.margin_r),
            margin_t: opt_view(self.margin_t),
            margin_b: opt_view(self.margin_b),
            header_dist: opt_view(self.header_dist),
            footer_dist: opt_view(self.footer_dist),
            hdr_refs: pairs_view(self.hdr_refs@),
            ftr_refs: pairs_view(self.ftr_refs@),
            title_pg: self.title_pg,
        }
    }
}

/// An empty document with every page length at its default.
pub open spec fn empty_doc() -> DocView {
    DocView {
        paras: Seq::empty(),
        tables: Seq::empty(),
        body: Seq::empty(),
        page_w: None,
        page_h: None,
        margin_l: None,
        margin_r: None,
        margin_t: None,
        margin_b: None,
        header_dist: None,
        footer_dist: None,
        hdr_refs: Seq::empty(),
        ftr_refs: Seq::empty(),
        title_pg: false,
    }
}


// ------------------------------------------------------------------------
// The scan
// ------------------------------------------------------------------------

/// A table being built: the table, its open row and its open cell.
pub struct TableBuildView {
    pub table: TableView,
    pub cur_row: Option<RowView>,
    pub cur_cell: Option<CellView>,
}

/// The state of the scan over a body part. `border_ctx` is 1 inside
/// `w:pBdr`, 2 inside `w:tblBorders`, 3 inside `w:tcBorders`, else 0;
/// `in_change` and `in_fallback` count the open revision snapshots
/// (`...Change`) and `mc:Fallback` elements whose contents are skipped;
/// `pos_target` is 10 or 20 inside `wp:positionH`/`wp:positionV` and 1 or 2
/// inside their `wp:posOffset`; `para_stack` saves the paragraph and run
/// around a text box; `gstack` holds the transforms of the open groups.
pub struct ScanView {
    pub doc: DocView,
    pub cur_para: Option<ParaView>,
    pub cur_run: Option<RunView>,
    pub in_t: bool,
    pub in_tabs: bool,
    pub tables: Seq<TableBuildView>,
    pub border_ctx: u8,
    pub in_tcpr: bool,
    pub in_change: u64,
    pub in_fallback: u64,
    pub cur_float: Option<FloatView>,
    pub cur_shape: Option<ShapeView>,
    pub in_txbx: bool,
    pub in_dln: bool,
    pub pos_target: u8,
    pub para_stack: Seq<(Option<ParaView>, Option<RunView>)>,
    pub gstack: Seq<GroupXfrmView>,
    pub in_grpspr: bool,
    pub g_xfrm: GroupXfrmView,
}

/// The state before the first token.
pub open spec fn scan_start() -> ScanView {
    ScanView {
        doc: empty_doc(),
        cur_para: None,
        cur_run: None,
        in_t: false,
        in_tabs: false,
        tables: Seq::empty(),
        border_ctx: 0,
        in_tcpr: false,
        in_change: 0,
        in_fallback: 0,
        cur_float: None,
        cur_shape: None,
        in_txbx: false,
        in_dln: false,
        pos_target: 0,
        para_stack: Seq::empty(),
        gstack: Seq::empty(),
        in_grpspr: false,
        g_xfrm: blank_xfrm(),
    }
}

/// An attribute whose text reads as a number, as written.
pub open spec fn num(t: XmlTagView, key: Seq<char>) -> Option<Seq<char>> {
    crate::xlsx::num_attr(t, key)
}

/// `x + 1`, staying at the largest value.
pub open spec fn sat_inc(x: u64) -> u64 {
    if x < u64::MAX {
        (x + 1) as u64
    } else {
        x
    }
}

/// `x - 1`, staying at 0.
pub open spec fn sat_dec(x: u64) -> u64 {
    if x > 0 {
        (x - 1) as u64
    } else {
        0
    }
}

/// Whether a tag name ends with `Change` (a revision snapshot).
pub open spec fn is_change(n: Seq<char>) -> bool {
    n.len() >= 6 && n.skip(n.len() - 6) == "Change"@
}

/// Whether an attribute is exactly `want`.
pub open spec fn attr_eq(t: XmlTagView, key: Seq<char>, want: Seq<char>) -> bool {
    tag_attr(t, key) == Some(want)
}

/// `Some` of the colour a `w:highlight` name gives.
pub open spec fn spec_highlight_color(name: Seq<char>) -> Option<Color> {
    match spec_highlight(name) {
        Some((r, g, b)) => Some(Color { r, g, b, a: 255 }),
        None => None,
    }
}

/// The colour of a `w:color`-style value.
pub open spec fn wcolor(v: Seq<char>) -> Color {
    spec_word_color(vstd::utf8::encode_utf8(v))
}

/// Alignment of a table's `w:jc` (no justification for tables).
pub open spec fn table_jc(v: Option<Seq<char>>) -> ParaAlign {
    if v == Some("center"@) {
        ParaAlign::Center
    } else if v == Some("right"@) || v == Some("end"@) {
        ParaAlign::Right
    } else {
        ParaAlign::Left
    }
}

// ---- floating drawings ----

/// Whether a tag is handled as part of a floating drawing.
pub open spec fn is_float_tag(st: ScanView, n: Seq<char>) -> bool {
    ||| n == "wp:anchor"@ || n == "wp:wrapNone"@ || n == "wp:positionH"@ || n == "wp:positionV"@
        || n == "wp:posOffset"@ || n == "w:txbxContent"@
    ||| st.in_grpspr && (n == "a:off"@ || n == "a:ext"@ || n == "a:chOff"@ || n == "a:chExt"@)
    ||| st.cur_float is Some && (n == "wps:wsp"@ || n == "wps:cxnSp"@ || n == "wpg:grpSpPr"@ || n == "a:xfrm"@
        || n == "a:off"@ || n == "a:ext"@ || n == "a:prstGeom"@ || n == "a:ln"@ || n == "a:noFill"@
        || n == "a:srgbClr"@ || n == "a:schemeClr"@ || n == "a:blip"@ || n == "wp:extent"@)
}

/// `st` with the open shape replaced.
pub open spec fn with_shape(st: ScanView, s: ShapeView) -> ScanView {
    ScanView { cur_shape: Some(s), ..st }
}

/// `st` with the open float replaced.
pub open spec fn with_float(st: ScanView, f: FloatView) -> ScanView {
    ScanView { cur_float: Some(f), ..st }
}

/// A tag of a floating drawing.
pub open spec fn open_float(st: ScanView, t: XmlTagView, empty: bool) -> ScanView {
    let n = t.name;
    if n == "wp:anchor"@ {
        ScanView {
            cur_float: Some(
                FloatView {
                    off_x: None,
                    off_y: None,
                    shapes: Seq::empty(),
                    image_rid: None,
                    img_cx: None,
                    img_cy: None,
                    behind: attr_eq(t, "behindDoc"@, "1"@),
                    grouped: false,
                },
            ),
            gstack: Seq::empty(),
            in_grpspr: false,
            ..st
        }
    } else if n == "wp:wrapNone"@ {
        match st.cur_float {
            Some(f) => with_float(st, FloatView { behind: true, ..f }),
            None => st,
        }
    } else if n == "wp:positionH"@ {
        ScanView { pos_target: 10, ..st }
    } else if n == "wp:positionV"@ {
        ScanView { pos_target: 20, ..st }
    } else if n == "wp:posOffset"@ {
        ScanView { pos_target: if st.pos_target >= 20 { 2 } else { 1 }, ..st }
    } else if n == "w:txbxContent"@ {
        ScanView {
            in_txbx: true,
            para_stack: st.para_stack.push((st.cur_para, st.cur_run)),
            cur_para: None,
            cur_run: None,
            ..st
        }
    } else if st.in_grpspr && n == "a:off"@ {
        ScanView { g_xfrm: GroupXfrmView { off_x: num(t, "x"@), off_y: num(t, "y"@), ..st.g_xfrm }, ..st }
    } else if st.in_grpspr && n == "a:ext"@ {
        ScanView { g_xfrm: GroupXfrmView { ext_cx: num(t, "cx"@), ext_cy: num(t, "cy"@), ..st.g_xfrm }, ..st }
    } else if st.in_grpspr && n == "a:chOff"@ {
        ScanView { g_xfrm: GroupXfrmView { ch_x: num(t, "x"@), ch_y: num(t, "y"@), ..st.g_xfrm }, ..st }
    } else if st.in_grpspr && n == "a:chExt"@ {
        ScanView { g_xfrm: GroupXfrmView { ch_cx: num(t, "cx"@), ch_cy: num(t, "cy"@), ..st.g_xfrm }, ..st }
    } else if n == "wps:wsp"@ || n == "wps:cxnSp"@ {
        with_shape(st, new_shape())
    } else if n == "wpg:grpSpPr"@ {
        ScanView { in_grpspr: !empty, g_xfrm: blank_xfrm(), ..st }
    } else if n == "a:ln"@ {
        ScanView { in_dln: !empty, ..st }
    } else if n == "a:blip"@ {
        match (st.cur_float, tag_attr(t, "r:embed"@)) {
            (Some(f), Some(rid)) => with_float(st, FloatView { image_rid: Some(rid), ..f }),
            _ => st,
        }
    } else if n == "wp:extent"@ {
        match st.cur_float {
            Some(f) => with_float(st, FloatView { img_cx: num(t, "cx"@), img_cy: num(t, "cy"@), ..f }),
            None => st,
        }
    } else {
        match st.cur_shape {
            Some(s) => shape_tag(st, s, t),
            None => st,
        }
    }
}

/// A tag that sets something on the open shape (`a:xfrm`, `a:off`,
/// `a:ext`, `a:prstGeom`, `a:noFill`, `a:srgbClr`, `a:schemeClr`).
pub open spec fn shape_tag(st: ScanView, s: ShapeView, t: XmlTagView) -> ScanView {
    let n = t.name;
    if n == "a:xfrm"@ {
        with_shape(st, ShapeView { flip_v: attr_eq(t, "flipV"@, "1"@), flip_h: attr_eq(t, "flipH"@, "1"@), ..s })
    } else if n == "a:off"@ {
        with_shape(st, ShapeView { x: num(t, "x"@), y: num(t, "y"@), ..s })
    } else if n == "a:ext"@ {
        with_shape(st, ShapeView { w: num(t, "cx"@), h: num(t, "cy"@), ..s })
    } else if n == "a:prstGeom"@ {
        let prst = match tag_attr(t, "prst"@) {
            Some(p) => p,
            None => Seq::empty(),
        };
        with_shape(
            st,
            ShapeView {
                rounded: has_sub(prst, "ound"@) || has_sub(prst, "allout"@),
                is_line: has_sub(prst, "onnector"@) || prst == "line"@,
                ..s
            },
        )
    } else if n == "a:noFill"@ {
        if st.in_dln {
            with_shape(st, ShapeView { outline: None, ..s })
        } else {
            st
        }
    } else {
        match tag_attr(t, "val"@) {
            Some(v) => if st.in_dln {
                with_shape(st, ShapeView { outline: Some(wcolor(v)), ..s })
            } else {
                with_shape(st, ShapeView { fill: Some(wcolor(v)), ..s })
            },
            None => st,
        }
    }
}


// ---- tables, borders, shading, section references ----

/// Whether a tag is handled as table structure, a border side, shading or a
/// section reference.
pub open spec fn is_table_tag(st: ScanView, n: Seq<char>) -> bool {
    ||| n == "w:tbl"@ || n == "w:tr"@ || n == "w:tc"@ || n == "w:gridCol"@ || n == "w:tblBorders"@
        || n == "w:tcBorders"@ || n == "w:pBdr"@ || n == "w:tcPr"@ || n == "w:gridSpan"@ || n == "w:vMerge"@
        || n == "w:vAlign"@ || n == "w:trHeight"@ || n == "w:tblHeader"@ || n == "w:tblInd"@
    ||| is_side(n)
    ||| n == "w:shd"@ || n == "w:headerReference"@ || n == "w:footerReference"@ || n == "w:titlePg"@
    ||| n == "w:jc"@ && (st.in_tcpr || (st.tables.len() > 0 && st.cur_para is None))
}

/// A border side's tag name.
pub open spec fn is_side(n: Seq<char>) -> bool {
    n == "w:left"@ || n == "w:right"@ || n == "w:top"@ || n == "w:bottom"@ || n == "w:insideH"@ || n
        == "w:insideV"@
}

/// The innermost table being built.
pub open spec fn top_table(st: ScanView) -> TableBuildView {
    st.tables.last()
}

/// `st` with the innermost table being built replaced.
pub open spec fn with_top(st: ScanView, tb: TableBuildView) -> ScanView {
    ScanView { tables: st.tables.drop_last().push(tb), ..st }
}

/// `st` with the innermost table's open cell replaced.
pub open spec fn with_cell(st: ScanView, c: CellView) -> ScanView {
    with_top(st, TableBuildView { cur_cell: Some(c), ..top_table(st) })
}

/// `st` with the innermost table's open row replaced.
pub open spec fn with_row(st: ScanView, r: RowView) -> ScanView {
    with_top(st, TableBuildView { cur_row: Some(r), ..top_table(st) })
}

/// `st` with the innermost table replaced.
pub open spec fn with_table(st: ScanView, t: TableView) -> ScanView {
    with_top(st, TableBuildView { table: t, ..top_table(st) })
}

/// A border side element: shown unless its `w:val` is `none`, `nil` or
/// absent; its colour (black when absent) and `w:sz`.
pub open spec fn border_of(t: XmlTagView) -> BorderView {
    BorderView {
        on: match tag_attr(t, "w:val"@) {
            Some(v) => !(v == "none"@ || v == "nil"@),
            None => false,
        },
        color: match tag_attr(t, "w:color"@) {
            Some(c) => wcolor(c),
            None => Color { r: 0, g: 0, b: 0, a: 255 },
        },
        size: num(t, "w:sz"@),
    }
}

/// `b` with the side named `n` set to `bd`.
pub open spec fn set_side(b: BorderSetView, n: Seq<char>, bd: BorderView) -> BorderSetView {
    if n == "w:top"@ {
        BorderSetView { top: bd, ..b }
    } else if n == "w:bottom"@ {
        BorderSetView { bottom: bd, ..b }
    } else if n == "w:left"@ {
        BorderSetView { left: bd, ..b }
    } else if n == "w:right"@ {
        BorderSetView { right: bd, ..b }
    } else if n == "w:insideH"@ {
        BorderSetView { inside_h: bd, ..b }
    } else {
        BorderSetView { inside_v: bd, ..b }
    }
}

/// A border side, routed by the borders element it is in.
pub open spec fn border_side(st: ScanView, t: XmlTagView) -> ScanView {
    let n = t.name;
    let bd = border_of(t);
    if st.border_ctx == 2 && st.tables.len() > 0 {
        let tb = top_table(st);
        with_table(st, TableView { borders: set_side(tb.table.borders, n, bd), ..tb.table })
    } else if st.border_ctx == 3 && st.tables.len() > 0 && top_table(st).cur_cell is Some {
        let c = top_table(st).cur_cell->0;
        with_cell(st, CellView { borders: set_side(c.borders, n, bd), ..c })
    } else if st.border_ctx == 1 && (n == "w:top"@ || n == "w:bottom"@) {
        match st.cur_para {
            Some(p) => ScanView {
                cur_para: Some(
                    ParaView {
                        pbdr: ParaBorderView {
                            top: if n == "w:top"@ {
                                bd.on
                            } else {
                                p.pbdr.top
                            },
                            bottom: if n == "w:top"@ {
                                p.pbdr.bottom
                            } else {
                                bd.on
                            },
                            color: bd.color,
                            size: bd.size,
                        },
                        ..p
                    },
                ),
                ..st
            },
            None => st,
        }
    } else {
        st
    }
}

/// The shading colour of a `w:shd`: its `w:fill` unless that is `auto` (any
/// case) or `FFFFFF`.
pub open spec fn shd_color(t: XmlTagView) -> Option<Color> {
    match tag_attr(t, "w:fill"@) {
        Some(f) => if lower_seq(f) == "auto"@ || f == "FFFFFF"@ {
            None
        } else {
            Some(wcolor(f))
        },
        None => None,
    }
}

/// A `w:shd`: the open cell's shading inside `w:tcPr`, else the open run's
/// highlight when it has none, else the open paragraph's shading.
pub open spec fn shading(st: ScanView, t: XmlTagView) -> ScanView {
    let col = shd_color(t);
    if st.in_tcpr {
        if st.tables.len() > 0 && top_table(st).cur_cell is Some {
            let c = top_table(st).cur_cell->0;
            with_cell(st, CellView { shd: col, ..c })
        } else {
            st
        }
    } else {
        match st.cur_run {
            Some(r) => if r.direct.highlight is None {
                ScanView { cur_run: Some(RunView { direct: RPrView { highlight: col, ..r.direct }, ..r }), ..st }
            } else {
                st
            },
            None => match st.cur_para {
                Some(p) => ScanView { cur_para: Some(ParaView { shd: col, ..p }), ..st },
                None => st,
            },
        }
    }
}

/// `(w:type, r:id)` of a header or footer reference.
pub open spec fn section_ref(t: XmlTagView) -> Option<(Seq<char>, Seq<char>)> {
    match (tag_attr(t, "w:type"@), tag_attr(t, "r:id"@)) {
        (Some(ty), Some(id)) => Some((ty, id)),
        _ => None,
    }
}

/// Table and row structure, grid columns, border contexts, `w:tcPr` and
/// `w:tblInd`.
pub open spec fn is_struct_tag(n: Seq<char>) -> bool {
    n == "w:tbl"@ || n == "w:tr"@ || n == "w:tc"@ || n == "w:gridCol"@ || n == "w:tblBorders"@ || n
        == "w:tcBorders"@ || n == "w:pBdr"@ || n == "w:tcPr"@ || n == "w:tblInd"@
}

/// Cell and row properties.
pub open spec fn is_cellrow_tag(n: Seq<char>) -> bool {
    n == "w:gridSpan"@ || n == "w:vMerge"@ || n == "w:vAlign"@ || n == "w:trHeight"@ || n == "w:tblHeader"@
}

/// A tag of table structure, borders, shading or section references.
pub open spec fn open_table(st: ScanView, t: XmlTagView) -> ScanView {
    if is_struct_tag(t.name) {
        open_struct(st, t)
    } else if is_cellrow_tag(t.name) {
        open_cellrow(st, t)
    } else {
        open_misc(st, t)
    }
}

/// Table structure tags.
pub open spec fn open_struct(st: ScanView, t: XmlTagView) -> ScanView {
    let n = t.name;
    let has_t = st.tables.len() > 0;
    if n == "w:tbl"@ {
        ScanView { tables: st.tables.push(TableBuildView { table: new_table(), cur_row: None, cur_cell: None }), ..st }
    } else if n == "w:tr"@ {
        if has_t {
            with_row(st, RowView { cells: Seq::empty(), min_h: None, is_header: false })
        } else {
            st
        }
    } else if n == "w:tc"@ {
        if has_t {
            with_cell(st, new_cell())
        } else {
            st
        }
    } else if n == "w:gridCol"@ {
        match num(t, "w:w"@) {
            Some(w) => if has_t {
                let tb = top_table(st);
                with_table(st, TableView { grid: tb.table.grid.push(w), ..tb.table })
            } else {
                st
            },
            None => st,
        }
    } else if n == "w:tblBorders"@ {
        ScanView { border_ctx: 2, ..st }
    } else if n == "w:tcBorders"@ {
        ScanView { border_ctx: 3, ..st }
    } else if n == "w:pBdr"@ {
        ScanView { border_ctx: 1, ..st }
    } else if n == "w:tcPr"@ {
        ScanView { in_tcpr: true, ..st }
    } else {
        // w:tblInd
        match num(t, "w:w"@) {
            Some(v) => if has_t {
                let tb = top_table(st);
                with_table(st, TableView { ind: Some(v), ..tb.table })
            } else {
                st
            },
            None => st,
        }
    }
}

/// Cell and row property tags.
pub open spec fn open_cellrow(st: ScanView, t: XmlTagView) -> ScanView {
    let n = t.name;
    let has_cell = st.tables.len() > 0 && top_table(st).cur_cell is Some;
    let has_row = st.tables.len() > 0 && top_table(st).cur_row is Some;
    if n == "w:gridSpan"@ {
        match attr_u32(t, "w:val"@) {
            Some(v) => if has_cell {
                let c = top_table(st).cur_cell->0;
                with_cell(st, CellView { grid_span: if v >= 1 { v } else { 1 }, ..c })
            } else {
                st
            },
            None => st,
        }
    } else if n == "w:vMerge"@ {
        if has_cell {
            let c = top_table(st).cur_cell->0;
            with_cell(
                st,
                CellView {
                    vmerge: if attr_eq(t, "w:val"@, "restart"@) {
                        VMerge::Restart
                    } else {
                        VMerge::Continue
                    },
                    ..c
                },
            )
        } else {
            st
        }
    } else if n == "w:vAlign"@ {
        if has_cell {
            let c = top_table(st).cur_cell->0;
            with_cell(
                st,
                CellView {
                    valign: if attr_eq(t, "w:val"@, "center"@) {
                        1
                    } else if attr_eq(t, "w:val"@, "bottom"@) {
                        2
                    } else {
                        0
                    },
                    ..c
                },
            )
        } else {
            st
        }
    } else if n == "w:trHeight"@ {
        match num(t, "w:val"@) {
            Some(v) => if has_row {
                let r = top_table(st).cur_row->0;
                with_row(st, RowView { min_h: Some(v), ..r })
            } else {
                st
            },
            None => st,
        }
    } else {
        // w:tblHeader
        if has_row {
            let r = top_table(st).cur_row->0;
            with_row(st, RowView { is_header: true, ..r })
        } else {
            st
        }
    }
}

/// Border sides, shading, header/footer references, `w:titlePg`, and a
/// table's `w:jc`.
pub open spec fn open_misc(st: ScanView, t: XmlTagView) -> ScanView {
    let n = t.name;
    if is_side(n) {
        if st.border_ctx != 0 {
            border_side(st, t)
        } else {
            st
        }
    } else if n == "w:shd"@ {
        shading(st, t)
    } else if n == "w:headerReference"@ {
        match section_ref(t) {
            Some(r) => ScanView { doc: DocView { hdr_refs: st.doc.hdr_refs.push(r), ..st.doc }, ..st },
            None => st,
        }
    } else if n == "w:footerReference"@ {
        match section_ref(t) {
            Some(r) => ScanView { doc: DocView { ftr_refs: st.doc.ftr_refs.push(r), ..st.doc }, ..st },
            None => st,
        }
    } else if n == "w:titlePg"@ {
        ScanView { doc: DocView { title_pg: true, ..st.doc }, ..st }
    } else {
        // w:jc of a table (outside any paragraph)
        if st.tables.len() > 0 && st.cur_para is None {
            let tb = top_table(st);
            with_table(st, TableView { align: table_jc(tag_attr(t, "w:val"@)), ..tb.table })
        } else {
            st
        }
    }
}

// ---- paragraphs, runs, page geometry ----

/// `st` with the open paragraph replaced.
pub open spec fn with_para(st: ScanView, p: ParaView) -> ScanView {
    ScanView { cur_para: Some(p), ..st }
}

/// `st` with the open run replaced.
pub open spec fn with_run(st: ScanView, r: RunView) -> ScanView {
    ScanView { cur_run: Some(r), ..st }
}

/// `st` with the open run's direct properties replaced.
pub open spec fn with_direct(st: ScanView, r: RunView, d: RPrView) -> ScanView {
    with_run(st, RunView { direct: d, ..r })
}

/// `new` when present, else `old`.
pub open spec fn or_keep(new: Option<Seq<char>>, old: Option<Seq<char>>) -> Option<Seq<char>> {
    if new is Some {
        new
    } else {
        old
    }
}

/// The alignment of a tab stop's `w:val`.
pub open spec fn tab_align(v: Option<Seq<char>>) -> ParaAlign {
    if v == Some("center"@) {
        ParaAlign::Center
    } else if v == Some("right"@) || v == Some("end"@) {
        ParaAlign::Right
    } else {
        ParaAlign::Left
    }
}

/// A `w:vertAlign` value: 1 superscript, -1 subscript, else 0.
pub open spec fn vert_of(v: Option<Seq<char>>) -> i8 {
    if v == Some("superscript"@) {
        1i8
    } else if v == Some("subscript"@) {
        -1i8
    } else {
        0i8
    }
}

/// A paragraph property tag (`w:ind`, `w:spacing`, `w:keepLines`, ...);
/// these apply only before the paragraph's first run where noted.
pub open spec fn para_prop(st: ScanView, p: ParaView, t: XmlTagView) -> ScanView {
    let n = t.name;
    let no_run = st.cur_run is None;
    if n == "w:numId"@ {
        match attr_u32(t, "w:val"@) {
            Some(v) => with_para(st, ParaView { num_id: Some(v), ..p }),
            None => st,
        }
    } else if n == "w:ilvl"@ {
        match attr_u32(t, "w:val"@) {
            Some(v) => with_para(st, ParaView { num_ilvl: v, ..p }),
            None => st,
        }
    } else if n == "w:ind"@ {
        if no_run {
            with_para(
                st,
                ParaView {
                    ind_left: or_keep(num(t, "w:left"@), num(t, "w:start"@)),
                    ind_hanging: num(t, "w:hanging"@),
                    ind_right: or_keep(or_keep(num(t, "w:right"@), num(t, "w:end"@)), p.ind_right),
                    ind_first: or_keep(num(t, "w:firstLine"@), p.ind_first),
                    ..p
                },
            )
        } else {
            st
        }
    } else if n == "w:keepLines"@ || n == "w:keepNext"@ {
        if no_run && crate::wordstyle::bold_val(t) {
            with_para(st, ParaView { keep_lines: true, ..p })
        } else {
            st
        }
    } else if n == "w:pStyle"@ {
        match tag_attr(t, "w:val"@) {
            Some(v) => if no_run {
                with_para(st, ParaView { p_style: Some(v), ..p })
            } else {
                st
            },
            None => st,
        }
    } else if n == "w:jc"@ {
        with_para(st, ParaView { align: Some(crate::wordstyle::jc_align(tag_attr(t, "w:val"@))), ..p })
    } else if n == "w:spacing"@ {
        if no_run {
            let before = or_keep(num(t, "w:before"@), p.spc_before);
            let after = or_keep(num(t, "w:after"@), p.spc_after);
            let p2 = ParaView { spc_before: before, spc_after: after, ..p };
            match num(t, "w:line"@) {
                Some(l) => if attr_eq(t, "w:lineRule"@, "exact"@) || attr_eq(t, "w:lineRule"@, "atLeast"@) {
                    with_para(st, ParaView { line_exact: Some(l), ..p2 })
                } else {
                    with_para(st, ParaView { line_mult: Some(l), ..p2 })
                },
                None => with_para(st, p2),
            }
        } else {
            st
        }
    } else if n == "w:pageBreakBefore"@ {
        with_para(st, ParaView { page_break_before: crate::wordstyle::bold_val(t), ..p })
    } else if n == "wp:extent"@ {
        with_para(st, ParaView { image_cx: or_keep(num(t, "cx"@), p.image_cx), image_cy: or_keep(num(t, "cy"@), p.image_cy), ..p })
    } else {
        // a:blip
        match tag_attr(t, "r:embed"@) {
            Some(rid) => with_para(st, ParaView { image_rid: Some(rid), ..p }),
            None => st,
        }
    }
}

/// Paragraph alignment: `w:jc` of `center` centres, `right` or `end` aligns
/// right, `both` or `distribute` justifies, and any other value or none
/// aligns left; the paragraph's other properties stay.
pub proof fn law_para_alignment(st: ScanView, p: ParaView, t: XmlTagView)
    requires
        t.name == "w:jc"@,
    ensures
        ({
            let v = tag_attr(t, "w:val"@);
            let want = if v == Some("center"@) {
                ParaAlign::Center
            } else if v == Some("right"@) || v == Some("end"@) {
                ParaAlign::Right
            } else if v == Some("both"@) || v == Some("distribute"@) {
                ParaAlign::Justify
            } else {
                ParaAlign::Left
            };
            para_prop(st, p, t).cur_para == Some(ParaView { align: Some(want), ..p })
        }),
{
    reveal_strlit("w:jc");
    reveal_strlit("w:numId");
    reveal_strlit("w:ilvl");
    reveal_strlit("w:ind");
    reveal_strlit("w:keepLines");
    reveal_strlit("w:keepNext");
    reveal_strlit("w:pStyle");
    assert("w:jc"@.len() != "w:numId"@.len() && "w:jc"@.len() != "w:ilvl"@.len() && "w:jc"@[2]
        != "w:ind"@[2] && "w:jc"@.len() != "w:keepLines"@.len() && "w:jc"@.len()
        != "w:keepNext"@.len() && "w:jc"@.len() != "w:pStyle"@.len());
}

/// Whether a tag sets a paragraph property ([`para_prop`]).
pub open spec fn is_para_prop(n: Seq<char>) -> bool {
    n == "w:numId"@ || n == "w:ilvl"@ || n == "w:ind"@ || n == "w:keepLines"@ || n == "w:keepNext"@ || n
        == "w:pStyle"@ || n == "w:jc"@ || n == "w:spacing"@ || n == "w:pageBreakBefore"@ || n == "wp:extent"@
        || n == "a:blip"@
}

/// A run property tag (`w:rStyle`, `w:b`, `w:sz`, ...).
pub open spec fn run_prop(st: ScanView, r: RunView, t: XmlTagView) -> ScanView {
    let n = t.name;
    let d = r.direct;
    if n == "w:rStyle"@ {
        match tag_attr(t, "w:val"@) {
            Some(v) => with_run(st, RunView { r_style: Some(v), ..r }),
            None => st,
        }
    } else if n == "w:b"@ {
        with_direct(st, r, RPrView { bold: Some(crate::wordstyle::bold_val(t)), ..d })
    } else if n == "w:sz"@ {
        match num(t, "w:val"@) {
            Some(v) => with_direct(st, r, RPrView { size: Some(FontSizeView::HalfPoints(v)), ..d }),
            None => st,
        }
    } else if n == "w:color"@ {
        match tag_attr(t, "w:val"@) {
            Some(v) => with_direct(st, r, RPrView { color: Some(wcolor(v)), ..d }),
            None => st,
        }
    } else if n == "w:i"@ {
        with_direct(st, r, RPrView { italic: Some(crate::wordstyle::bold_val(t)), ..d })
    } else if n == "w:u"@ {
        with_direct(st, r, RPrView { underline: Some(!attr_eq(t, "w:val"@, "none"@)), ..d })
    } else if n == "w:strike"@ {
        with_direct(st, r, RPrView { strike: Some(crate::wordstyle::bold_val(t)), ..d })
    } else if n == "w:vertAlign"@ {
        with_direct(st, r, RPrView { vert_align: Some(vert_of(tag_attr(t, "w:val"@))), ..d })
    } else {
        // w:highlight
        match tag_attr(t, "w:val"@) {
            Some(v) => with_direct(st, r, RPrView { highlight: spec_highlight_color(v), ..d }),
            None => st,
        }
    }
}

/// A run's `w:vertAlign` lowers the run below the baseline for `subscript`
/// (-1), raises it for `superscript` (+1), and keeps it on the baseline (0)
/// for any other value; the run's text, style and other properties stay.
pub proof fn law_vert_align_direction(st: ScanView, r: RunView, t: XmlTagView)
    requires
        t.name == "w:vertAlign"@,
    ensures
        tag_attr(t, "w:val"@) == Some("subscript"@) ==> run_prop(st, r, t).cur_run == Some(
            RunView { direct: RPrView { vert_align: Some(-1i8), ..r.direct }, ..r },
        ),
        tag_attr(t, "w:val"@) == Some("superscript"@) ==> run_prop(st, r, t).cur_run == Some(
            RunView { direct: RPrView { vert_align: Some(1i8), ..r.direct }, ..r },
        ),
        tag_attr(t, "w:val"@) != Some("subscript"@) && tag_attr(t, "w:val"@) != Some(
            "superscript"@,
        ) ==> run_prop(st, r, t).cur_run == Some(
            RunView { direct: RPrView { vert_align: Some(0i8), ..r.direct }, ..r },
        ),
{
    reveal_strlit("w:vertAlign");
    reveal_strlit("w:rStyle");
    reveal_strlit("w:b");
    reveal_strlit("w:sz");
    reveal_strlit("w:color");
    reveal_strlit("w:i");
    reveal_strlit("w:u");
    reveal_strlit("w:strike");
    reveal_strlit("subscript");
    reveal_strlit("superscript");
    assert("w:vertAlign"@.len() != "w:rStyle"@.len() || "w:vertAlign"@[2] != "w:rStyle"@[2]);
    assert("w:vertAlign"@.len() != "w:b"@.len() || "w:vertAlign"@[2] != "w:b"@[2]);
    assert("w:vertAlign"@.len() != "w:sz"@.len() || "w:vertAlign"@[2] != "w:sz"@[2]);
    assert("w:vertAlign"@.len() != "w:color"@.len() || "w:vertAlign"@[2] != "w:color"@[2]);
    assert("w:vertAlign"@.len() != "w:i"@.len() || "w:vertAlign"@[2] != "w:i"@[2]);
    assert("w:vertAlign"@.len() != "w:u"@.len() || "w:vertAlign"@[2] != "w:u"@[2]);
    assert("w:vertAlign"@.len() != "w:strike"@.len() || "w:vertAlign"@[2] != "w:strike"@[2]);
    assert("subscript"@.len() != "superscript"@.len());
}

/// On/off run properties: `w:b`, `w:i` and `w:strike` turn bold, italic or
/// strike-through on when they have no `w:val` or any value but `0`,
/// `false` and `off`, which turn it off; `w:u` underlines unless its value
/// is `none`. The run's text, style and other properties stay.
pub proof fn law_run_toggles(st: ScanView, r: RunView, t: XmlTagView)
    ensures
        ({
            let off = tag_attr(t, "w:val"@) == Some("0"@) || tag_attr(t, "w:val"@) == Some("false"@)
                || tag_attr(t, "w:val"@) == Some("off"@);
            &&& t.name == "w:b"@ ==> run_prop(st, r, t).cur_run == Some(
                RunView { direct: RPrView { bold: Some(!off), ..r.direct }, ..r },
            )
            &&& t.name == "w:i"@ ==> run_prop(st, r, t).cur_run == Some(
                RunView { direct: RPrView { italic: Some(!off), ..r.direct }, ..r },
            )
            &&& t.name == "w:strike"@ ==> run_prop(st, r, t).cur_run == Some(
                RunView { direct: RPrView { strike: Some(!off), ..r.direct }, ..r },
            )
            &&& t.name == "w:u"@ ==> run_prop(st, r, t).cur_run == Some(
                RunView {
                    direct: RPrView {
                        underline: Some(tag_attr(t, "w:val"@) != Some("none"@)),
                        ..r.direct
                    },
                    ..r
                },
            )
        }),
{
    reveal_strlit("w:rStyle");
    reveal_strlit("w:b");
    reveal_strlit("w:sz");
    reveal_strlit("w:color");
    reveal_strlit("w:i");
    reveal_strlit("w:u");
    reveal_strlit("w:strike");
    assert("w:b"@.len() != "w:rStyle"@.len());
    assert("w:i"@.len() != "w:rStyle"@.len() && "w:i"@[2] != "w:b"@[2] && "w:i"@.len() != "w:sz"@.len()
        && "w:i"@.len() != "w:color"@.len());
    assert("w:u"@.len() != "w:rStyle"@.len() && "w:u"@[2] != "w:b"@[2] && "w:u"@.len() != "w:sz"@.len()
        && "w:u"@.len() != "w:color"@.len() && "w:u"@[2] != "w:i"@[2]);
    assert("w:strike"@[2] != "w:rStyle"@[2] && "w:strike"@.len() != "w:b"@.len() && "w:strike"@.len()
        != "w:sz"@.len() && "w:strike"@.len() != "w:color"@.len() && "w:strike"@.len() != "w:i"@.len()
        && "w:strike"@.len() != "w:u"@.len());
}

/// Whether a tag sets a run property ([`run_prop`]).
pub open spec fn is_run_prop(n: Seq<char>) -> bool {
    n == "w:rStyle"@ || n == "w:b"@ || n == "w:sz"@ || n == "w:color"@ || n == "w:i"@ || n == "w:u"@ || n
        == "w:strike"@ || n == "w:vertAlign"@ || n == "w:highlight"@
}

/// `w:pgSz` and `w:pgMar`: page size and margins of the section.
pub open spec fn page_tag(st: ScanView, t: XmlTagView) -> ScanView {
    let d = st.doc;
    if t.name == "w:pgSz"@ {
        ScanView { doc: DocView { page_w: or_keep(num(t, "w:w"@), d.page_w), page_h: or_keep(num(t, "w:h"@), d.page_h), ..d }, ..st }
    } else {
        ScanView {
            doc: DocView {
                margin_l: or_keep(num(t, "w:left"@), d.margin_l),
                margin_r: or_keep(num(t, "w:right"@), d.margin_r),
                margin_t: or_keep(num(t, "w:top"@), d.margin_t),
                margin_b: or_keep(num(t, "w:bottom"@), d.margin_b),
                header_dist: or_keep(num(t, "w:header"@), d.header_dist),
                footer_dist: or_keep(num(t, "w:footer"@), d.footer_dist),
                ..d
            },
            ..st
        }
    }
}

/// A paragraph, run, text or page tag (everything that is not a floating
/// drawing or table structure).
pub open spec fn open_para(st: ScanView, t: XmlTagView) -> ScanView {
    let n = t.name;
    if n == "w:p"@ {
        with_para(st, new_para())
    } else if n == "w:r"@ {
        with_run(st, RunView { text: Seq::empty(), direct: no_rpr(), r_style: None })
    } else if n == "w:tabs"@ {
        ScanView { in_tabs: true, ..st }
    } else if n == "w:t"@ {
        ScanView { in_t: true, ..st }
    } else if n == "w:tab"@ {
        if st.in_tabs {
            match (st.cur_para, num(t, "w:pos"@)) {
                (Some(p), Some(pos)) => with_para(
                    st,
                    ParaView { tab_stops: p.tab_stops.push((pos, tab_align(tag_attr(t, "w:val"@)))), ..p },
                ),
                _ => st,
            }
        } else {
            match st.cur_run {
                Some(r) => with_run(st, RunView { text: r.text.push('\t'), ..r }),
                None => st,
            }
        }
    } else if n == "w:br"@ {
        if attr_eq(t, "w:type"@, "page"@) || attr_eq(t, "w:type"@, "column"@) {
            match st.cur_para {
                Some(p) => with_para(st, ParaView { page_break_after: true, ..p }),
                None => st,
            }
        } else {
            match st.cur_run {
                Some(r) => with_run(st, RunView { text: r.text.push('\n'), ..r }),
                None => st,
            }
        }
    } else if n == "w:pgSz"@ || n == "w:pgMar"@ {
        page_tag(st, t)
    } else if is_para_prop(n) {
        match st.cur_para {
            Some(p) => para_prop(st, p, t),
            None => st,
        }
    } else if is_run_prop(n) {
        match st.cur_run {
            Some(r) => run_prop(st, r, t),
            None => st,
        }
    } else {
        st
    }
}


// ---- the token steps ----

/// A start or empty tag: revision snapshots and `mc:Fallback` are counted
/// and their contents skipped; other tags go to the drawing, table or
/// paragraph handling, in that order.
pub open spec fn scan_open(st: ScanView, t: XmlTagView, empty: bool) -> ScanView {
    let n = t.name;
    if is_change(n) {
        if empty {
            st
        } else {
            ScanView { in_change: sat_inc(st.in_change), ..st }
        }
    } else if n == "mc:Fallback"@ {
        if empty {
            st
        } else {
            ScanView { in_fallback: sat_inc(st.in_fallback), ..st }
        }
    } else if st.in_change > 0 || st.in_fallback > 0 {
        st
    } else if is_float_tag(st, n) {
        open_float(st, t, empty)
    } else if is_table_tag(st, n) {
        open_table(st, t)
    } else {
        open_para(st, t)
    }
}

/// Character data: a position offset inside `wp:posOffset` (trimmed, when
/// it reads as a number), else run text inside `w:t`.
pub open spec fn scan_text(st: ScanView, x: Seq<char>) -> ScanView {
    if st.pos_target == 1 || st.pos_target == 2 {
        let v = trim(x);
        if float_text(v) {
            match st.cur_float {
                Some(f) => if st.pos_target == 1 {
                    with_float(st, FloatView { off_x: Some(v), ..f })
                } else {
                    with_float(st, FloatView { off_y: Some(v), ..f })
                },
                None => st,
            }
        } else {
            st
        }
    } else if st.in_t {
        match st.cur_run {
            Some(r) => with_run(st, RunView { text: r.text + x, ..r }),
            None => st,
        }
    } else {
        st
    }
}

/// `b` added to the innermost open table cell, else to the body.
pub open spec fn push_block(st: ScanView, b: BlockRef) -> ScanView {
    if st.tables.len() > 0 && top_table(st).cur_cell is Some {
        let c = top_table(st).cur_cell->0;
        with_cell(st, CellView { blocks: c.blocks.push(b), ..c })
    } else {
        ScanView { doc: DocView { body: st.doc.body.push(b), ..st.doc }, ..st }
    }
}

/// `p` added to the paragraph list.
pub open spec fn add_para(st: ScanView, p: ParaView) -> (ScanView, BlockRef) {
    (
        ScanView { doc: DocView { paras: st.doc.paras.push(p), ..st.doc }, ..st },
        BlockRef::Para(st.doc.paras.len() as usize),
    )
}

/// The end of a paragraph: inside a text box it joins the open shape (and
/// is dropped without one), else the innermost open cell or the body.
pub open spec fn close_para(st: ScanView) -> ScanView {
    match st.cur_para {
        Some(p) => {
            let st1 = ScanView { cur_para: None, ..st };
            if st.in_txbx {
                match st.cur_shape {
                    Some(s) => {
                        let (st2, b) = add_para(st1, p);
                        with_shape(st2, ShapeView { blocks: s.blocks.push(b), ..s })
                    },
                    None => st1,
                }
            } else {
                let (st2, b) = add_para(st1, p);
                push_block(st2, b)
            }
        },
        None => st,
    }
}

/// The end of a table: it joins the table list and the next open cell out,
/// or the body.
pub open spec fn close_table(st: ScanView) -> ScanView {
    if st.tables.len() > 0 {
        let tb = top_table(st);
        let st1 = ScanView {
            tables: st.tables.drop_last(),
            doc: DocView { tables: st.doc.tables.push(tb.table), ..st.doc },
            ..st
        };
        push_block(st1, BlockRef::Table(st.doc.tables.len() as usize))
    } else {
        st
    }
}

/// The end of a text box: the saved paragraph and run come back.
#[verifier::opaque]
pub open spec fn end_txbx(st: ScanView) -> ScanView {
    if st.para_stack.len() > 0 {
        let (p, r) = st.para_stack.last();
        ScanView { in_txbx: false, cur_para: p, cur_run: r, para_stack: st.para_stack.drop_last(), ..st }
    } else {
        ScanView { in_txbx: false, ..st }
    }
}

/// The end of a group's shape properties: its transform is pushed and the
/// float is marked as grouped.
#[verifier::opaque]
pub open spec fn end_grpsppr(st: ScanView) -> ScanView {
    let f = st.cur_float->0;
    ScanView {
        in_grpspr: false,
        cur_float: Some(FloatView { grouped: true, ..f }),
        gstack: st.gstack.push(st.g_xfrm),
        ..st
    }
}

/// The end of a group: its transform is popped.
#[verifier::opaque]
pub open spec fn end_group(st: ScanView) -> ScanView {
    if st.gstack.len() > 0 {
        ScanView { gstack: st.gstack.drop_last(), ..st }
    } else {
        st
    }
}

/// The end of a shape: it joins the open float with the open group
/// transforms and the float's picture extent.
#[verifier::opaque]
pub open spec fn end_shape(st: ScanView) -> ScanView {
    let st1 = ScanView { cur_shape: None, ..st };
    match (st.cur_float, st.cur_shape) {
        (Some(f), Some(s)) => with_float(
            st1,
            FloatView {
                shapes: f.shapes.push(ShapeView { groups: st.gstack, img_cx: f.img_cx, img_cy: f.img_cy, ..s }),
                ..f
            },
        ),
        _ => st1,
    }
}

/// The end of an anchor: the float joins the open paragraph.
#[verifier::opaque]
pub open spec fn end_anchor(st: ScanView) -> ScanView {
    let st1 = ScanView { cur_float: None, ..st };
    match (st.cur_float, st.cur_para) {
        (Some(f), Some(p)) => with_para(st1, ParaView { floats: p.floats.push(f), ..p }),
        _ => st1,
    }
}

/// The end of a run: a run with text joins the open paragraph.
#[verifier::opaque]
pub open spec fn end_run(st: ScanView) -> ScanView {
    let st1 = ScanView { cur_run: None, ..st };
    match (st.cur_para, st.cur_run) {
        (Some(p), Some(r)) => if r.text.len() > 0 {
            with_para(st1, ParaView { runs: p.runs.push(r), ..p })
        } else {
            st1
        },
        _ => st1,
    }
}

/// The end of a cell: it joins the open row.
#[verifier::opaque]
pub open spec fn end_cell(st: ScanView) -> ScanView {
    if st.tables.len() > 0 && top_table(st).cur_cell is Some {
        let tb = top_table(st);
        let c = tb.cur_cell->0;
        with_top(
            st,
            TableBuildView {
                cur_cell: None,
                cur_row: match tb.cur_row {
                    Some(r) => Some(RowView { cells: r.cells.push(c), ..r }),
                    None => None,
                },
                ..tb
            },
        )
    } else {
        st
    }
}

/// The end of a row: it joins the open table.
#[verifier::opaque]
pub open spec fn end_row(st: ScanView) -> ScanView {
    if st.tables.len() > 0 && top_table(st).cur_row is Some {
        let tb = top_table(st);
        let r = tb.cur_row->0;
        with_top(st, TableBuildView { cur_row: None, table: TableView { rows: tb.table.rows.push(r), ..tb.table }, ..tb })
    } else {
        st
    }
}

/// An end tag of the body.
pub open spec fn close_tag(st: ScanView, n: Seq<char>) -> ScanView {
    if n == "w:t"@ {
        ScanView { in_t: false, ..st }
    } else if n == "w:tabs"@ {
        ScanView { in_tabs: false, ..st }
    } else if n == "w:tblBorders"@ || n == "w:tcBorders"@ || n == "w:pBdr"@ {
        ScanView { border_ctx: 0, ..st }
    } else if n == "w:tcPr"@ {
        ScanView { in_tcpr: false, ..st }
    } else if n == "wp:posOffset"@ {
        ScanView { pos_target: 0, ..st }
    } else if n == "a:ln"@ && st.cur_float is Some {
        ScanView { in_dln: false, ..st }
    } else if n == "w:txbxContent"@ {
        end_txbx(st)
    } else if n == "wpg:grpSpPr"@ && st.cur_float is Some {
        end_grpsppr(st)
    } else if (n == "wpg:grpSp"@ || n == "wpg:wgp"@) && st.cur_float is Some {
        end_group(st)
    } else if n == "wps:wsp"@ || n == "wps:cxnSp"@ {
        end_shape(st)
    } else if n == "wp:anchor"@ {
        end_anchor(st)
    } else if n == "w:r"@ {
        end_run(st)
    } else if n == "w:p"@ {
        close_para(st)
    } else if n == "w:tc"@ {
        end_cell(st)
    } else if n == "w:tr"@ {
        end_row(st)
    } else if n == "w:tbl"@ {
        close_table(st)
    } else {
        st
    }
}

/// An end tag: the counters of skipped elements, or [`close_tag`] outside
/// them.
pub open spec fn scan_close(st: ScanView, n: Seq<char>) -> ScanView {
    if is_change(n) {
        ScanView { in_change: sat_dec(st.in_change), ..st }
    } else if n == "mc:Fallback"@ {
        ScanView { in_fallback: sat_dec(st.in_fallback), ..st }
    } else if st.in_change > 0 || st.in_fallback > 0 {
        st
    } else {
        close_tag(st, n)
    }
}

/// One token of a body part.
pub open spec fn scan_step(st: ScanView, ev: XmlEventView) -> ScanView {
    match ev {
        XmlEventView::Start(t) => scan_open(st, t, false),
        XmlEventView::Empty(t) => scan_open(st, t, true),
        XmlEventView::Text(x) => scan_text(st, x),
        XmlEventView::End(n, _) => scan_close(st, n),
        _ => st,
    }
}

/// The scan over a token sequence.
pub open spec fn scan_fold(evs: Seq<XmlEventView>) -> ScanView
    decreases evs.len(),
{
    if evs.len() == 0 {
        scan_start()
    } else {
        scan_step(scan_fold(evs.drop_last()), evs.last())
    }
}

/// The document a body part with tokens `evs` describes.
pub open spec fn spec_body(evs: Seq<XmlEventView>) -> DocView {
    scan_fold(evs).doc
}


// ------------------------------------------------------------------------
// Runs without text are dropped
// ------------------------------------------------------------------------

/// Every run of the paragraph has text.
pub open spec fn has_text(p: ParaView) -> bool {
    forall|k: int| 0 <= k < p.runs.len() ==> (#[trigger] p.runs[k]).text.len() > 0
}

/// `has_text` of an optional paragraph.
pub open spec fn opt_has_text(o: Option<ParaView>) -> bool {
    match o {
        Some(p) => has_text(p),
        None => true,
    }
}

/// Every paragraph the scan holds (finished, open or saved) has only runs
/// with text.
pub open spec fn runs_inv(st: ScanView) -> bool {
    &&& forall|i: int| 0 <= i < st.doc.paras.len() ==> has_text(#[trigger] st.doc.paras[i])
    &&& opt_has_text(st.cur_para)
    &&& forall|i: int| 0 <= i < st.para_stack.len() ==> opt_has_text(#[trigger] st.para_stack[i].0)
}

proof fn lemma_open_float_inv(st: ScanView, t: XmlTagView, empty: bool)
    requires
        runs_inv(st),
    ensures
        runs_inv(open_float(st, t, empty)),
{
    let r = open_float(st, t, empty);
    if t.name == "w:txbxContent"@ {
        assert forall|i: int| 0 <= i < r.para_stack.len() implies opt_has_text(#[trigger] r.para_stack[i].0) by {
            if i < st.para_stack.len() {
                assert(r.para_stack[i] == st.para_stack[i]);
            }
        }
    }
}

proof fn lemma_open_table_inv(st: ScanView, t: XmlTagView)
    requires
        runs_inv(st),
    ensures
        runs_inv(open_table(st, t)),
{
}

proof fn lemma_open_para_inv(st: ScanView, t: XmlTagView)
    requires
        runs_inv(st),
    ensures
        runs_inv(open_para(st, t)),
{
}

#[verifier::rlimit(40)]
proof fn lemma_close_inv(st: ScanView, n: Seq<char>)
    requires
        runs_inv(st),
    ensures
        runs_inv(close_tag(st, n)),
{
    reveal(end_txbx);
    reveal(end_grpsppr);
    reveal(end_group);
    reveal(end_shape);
    reveal(end_anchor);
    reveal(end_run);
    reveal(end_cell);
    reveal(end_row);
    let r = close_tag(st, n);
    if n == "w:txbxContent"@ && st.para_stack.len() > 0 {
        assert(opt_has_text(st.para_stack[st.para_stack.len() - 1].0));
        assert forall|i: int| 0 <= i < r.para_stack.len() implies opt_has_text(#[trigger] r.para_stack[i].0) by {
            assert(r.para_stack[i] == st.para_stack[i]);
        }
    } else if n == "w:r"@ {
        match (st.cur_para, st.cur_run) {
            (Some(p), Some(rn)) => {
                if rn.text.len() > 0 {
                    let p2 = ParaView { runs: p.runs.push(rn), ..p };
                    assert forall|k: int| 0 <= k < p2.runs.len() implies (#[trigger] p2.runs[k]).text.len() > 0 by {
                        if k < p.runs.len() {
                            assert(p2.runs[k] == p.runs[k]);
                        }
                    }
                }
            },
            _ => {},
        }
    } else if n == "w:p"@ {
        match st.cur_para {
            Some(p) => {
                assert(has_text(p));
                let ps = st.doc.paras.push(p);
                assert forall|i: int| 0 <= i < ps.len() implies has_text(#[trigger] ps[i]) by {
                    if i < st.doc.paras.len() {
                        assert(ps[i] == st.doc.paras[i]);
                    }
                }
            },
            None => {},
        }
    }
}

proof fn lemma_step_inv(st: ScanView, ev: XmlEventView)
    requires
        runs_inv(st),
    ensures
        runs_inv(scan_step(st, ev)),
{
    match ev {
        XmlEventView::Start(t) => {
            lemma_open_float_inv(st, t, false);
            lemma_open_table_inv(st, t);
            lemma_open_para_inv(st, t);
        },
        XmlEventView::Empty(t) => {
            lemma_open_float_inv(st, t, true);
            lemma_open_table_inv(st, t);
            lemma_open_para_inv(st, t);
        },
        XmlEventView::End(n, _) => {
            lemma_close_inv(st, n);
        },
        _ => {},
    }
}

proof fn lemma_fold_inv(evs: Seq<XmlEventView>)
    ensures
        runs_inv(scan_fold(evs)),
    decreases evs.len(),
{
    if evs.len() > 0 {
        lemma_fold_inv(evs.drop_last());
        lemma_step_inv(scan_fold(evs.drop_last()), evs.last());
    }
}

/// Runs without text are dropped: every run of every paragraph of a parsed
/// body has text.
pub proof fn law_kept_runs_have_text(evs: Seq<XmlEventView>)
    ensures
        forall|i: int, k: int|
            0 <= i < spec_body(evs).paras.len() && 0 <= k < spec_body(evs).paras[i].runs.len() ==> (
            #[trigger] spec_body(evs).paras[i].runs[k]).text.len() > 0,
{
    lemma_fold_inv(evs);
    let d = spec_body(evs);
    assert forall|i: int, k: int| 0 <= i < d.paras.len() && 0 <= k < d.paras[i].runs.len() implies (
    #[trigger] d.paras[i].runs[k]).text.len() > 0 by {
        assert(has_text(d.paras[i]));
    }
}

// ------------------------------------------------------------------------
// The scan, executed
// ------------------------------------------------------------------------

struct TableBuild {
    table: DTable,
    cur_row: Option<DRow>,
    cur_cell: Option<DCell>,
}

impl View for TableBuild {
    type V = TableBuildView;

    closed spec fn view(&self) -> TableBuildView {
        TableBuildView {
            table: self.table@,
            cur_row: match self.cur_row {
                Some(r) => Some(r@),
                None => None,
            },
            cur_cell: match self.cur_cell {
                Some(c) => Some(c@),
                None => None,
            },
        }
    }
}

/// Spec value of an optional paragraph.
pub open spec fn opara(o: Option<DPara>) -> Option<ParaView> {
    match o {
        Some(p) => Some(p@),
        None => None,
    }
}

/// Spec value of an optional run.
pub open spec fn orun(o: Option<DRun>) -> Option<RunView> {
    match o {
        Some(r) => Some(r@),
        None => None,
    }
}

struct Scan {
    doc: DocModel,
    cur_para: Option<DPara>,
    cur_run: Option<DRun>,
    in_t: bool,
    in_tabs: bool,
    tables: Vec<TableBuild>,
    border_ctx: u8,
    in_tcpr: bool,
    in_change: u64,
    in_fallback: u64,
    cur_float: Option<DFloat>,
    cur_shape: Option<DShape>,
    in_txbx: bool,
    in_dln: bool,
    pos_target: u8,
    para_stack: Vec<(Option<DPara>, Option<DRun>)>,
    gstack: Vec<GroupXfrm>,
    in_grpspr: bool,
    g_xfrm: GroupXfrm,
}

spec fn builds_view(v: Seq<TableBuild>) -> Seq<TableBuildView> {
    v.map_values(|b: TableBuild| b@)
}

spec fn saved_view(v: Seq<(Option<DPara>, Option<DRun>)>) -> Seq<(Option<ParaView>, Option<RunView>)> {
    v.map_values(|e: (Option<DPara>, Option<DRun>)| (opara(e.0), orun(e.1)))
}

impl View for Scan {
    type V = ScanView;

    closed spec fn view(&self) -> ScanView {
        ScanView {
            doc: self.doc@,
            cur_para: opara(self.cur_para),
            cur_run: orun(self.cur_run),
            in_t: self.in_t,
            in_tabs: self.in_tabs,
            tables: builds_view(self.tables@),
            border_ctx: self.border_ctx,
            in_tcpr: self.in_tcpr,
            in_change: self.in_change,
            in_fallback: self.in_fallback,
            cur_float: match self.cur_float {
                Some(f) => Some(f@),
                None => None,
            },
            cur_shape: match self.cur_shape {
                Some(s) => Some(s@),
                None => None,
            },
            in_txbx: self.in_txbx,
            in_dln: self.in_dln,
            pos_target: self.pos_target,
            para_stack: saved_view(self.para_stack@),
            gstack: xfrms_view(self.gstack@),
            in_grpspr: self.in_grpspr,
            g_xfrm: self.g_xfrm@,
        }
    }
}

fn copy_opt(o: &Option<String>) -> (r: Option<String>)
    ensures
        opt_view(r) == opt_view(*o),
{
    match o {
        Some(s) => Some(s.clone()),
        None => None,
    }
}

fn copy_xfrm(g: &GroupXfrm) -> (r: GroupXfrm)
    ensures
        r@ == g@,
{
    GroupXfrm {
        off_x: copy_opt(&g.off_x),
        off_y: copy_opt(&g.off_y),
        ext_cx: copy_opt(&g.ext_cx),
        ext_cy: copy_opt(&g.ext_cy),
        ch_x: copy_opt(&g.ch_x),
        ch_y: copy_opt(&g.ch_y),
        ch_cx: copy_opt(&g.ch_cx),
        ch_cy: copy_opt(&g.ch_cy),
    }
}

fn copy_xfrms(v: &Vec<GroupXfrm>) -> (r: Vec<GroupXfrm>)
    ensures
        xfrms_view(r@) == xfrms_view(v@),
{
    let mut r: Vec<GroupXfrm> = Vec::new();
    let mut i: usize = 0;
    while i < v.len()
        invariant
            i <= v.len(),
            xfrms_view(r@) == xfrms_view(v@).take(i as int),
        decreases v.len() - i,
    {
        let ghost before = xfrms_view(r@);
        r.push(copy_xfrm(&v[i]));
        assert(xfrms_view(r@) =~= before.push(v@[i as int]@));
        assert(xfrms_view(v@).take(i + 1) =~= xfrms_view(v@).take(i as int).push(v@[i as int]@));
        i += 1;
    }
    assert(xfrms_view(v@).take(i as int) =~= xfrms_view(v@));
    r
}

fn blank_xfrm_exec() -> (g: GroupXfrm)
    ensures
        g@ == blank_xfrm(),
{
    GroupXfrm { off_x: None, off_y: None, ext_cx: None, ext_cy: None, ch_x: None, ch_y: None, ch_cx: None, ch_cy: None }
}

fn no_border_exec() -> (b: Border)
    ensures
        b@ == no_border(),
{
    Border { on: false, color: Color { r: 0, g: 0, b: 0, a: 255 }, size: None }
}

fn no_borders_exec() -> (b: BorderSet)
    ensures
        b@ == no_borders(),
{
    BorderSet {
        top: no_border_exec(),
        bottom: no_border_exec(),
        left: no_border_exec(),
        right: no_border_exec(),
        inside_h: no_border_exec(),
        inside_v: no_border_exec(),
    }
}

fn new_para_exec() -> (p: DPara)
    ensures
        p@ == new_para(),
{
    let p = DPara {
        runs: Vec::new(),
        align: None,
        p_style: None,
        num_id: None,
        num_ilvl: 0,
        ind_left: None,
        ind_hanging: None,
        ind_right: None,
        ind_first: None,
        image_rid: None,
        image_cx: None,
        image_cy: None,
        spc_before: None,
        spc_after: None,
        line_mult: None,
        line_exact: None,
        pbdr: ParaBorder { top: false, bottom: false, color: Color { r: 0, g: 0, b: 0, a: 255 }, size: None },
        shd: None,
        tab_stops: Vec::new(),
        page_break_before: false,
        page_break_after: false,
        keep_lines: false,
        floats: Vec::new(),
    };
    assert(runs_view(p.runs@) =~= Seq::<RunView>::empty());
    assert(tabs_view(p.tab_stops@) =~= Seq::<(Seq<char>, ParaAlign)>::empty());
    assert(floats_view(p.floats@) =~= Seq::<FloatView>::empty());
    p
}

fn new_shape_exec() -> (s: DShape)
    ensures
        s@ == new_shape(),
{
    let s = DShape {
        x: None,
        y: None,
        w: None,
        h: None,
        fill: None,
        outline: None,
        rounded: false,
        is_line: false,
        flip_v: false,
        flip_h: false,
        blocks: Vec::new(),
        groups: Vec::new(),
        img_cx: None,
        img_cy: None,
    };
    assert(xfrms_view(s.groups@) =~= Seq::<GroupXfrmView>::empty());
    s
}

fn new_cell_exec() -> (c: DCell)
    ensures
        c@ == new_cell(),
{
    DCell { blocks: Vec::new(), grid_span: 1, vmerge: VMerge::Alone, borders: no_borders_exec(), shd: None, valign: 0 }
}

fn new_table_exec() -> (t: DTable)
    ensures
        t@ == new_table(),
{
    let t = DTable { grid: Vec::new(), rows: Vec::new(), borders: no_borders_exec(), ind: None, align: ParaAlign::Left };
    assert(strs_view(t.grid@) =~= Seq::<Seq<char>>::empty());
    assert(rows_view(t.rows@) =~= Seq::<RowView>::empty());
    t
}

fn num_exec(t: &XmlTag, key: &str) -> (r: Option<String>)
    ensures
        opt_view(r) == num(t@, key@),
{
    crate::xlsx::num_attr_exec(t, key)
}

fn wcolor_exec(v: &str) -> (c: Color)
    ensures
        c == wcolor(v@),
{
    word_color(v)
}

fn highlight_exec(v: &str) -> (c: Option<Color>)
    ensures
        c == spec_highlight_color(v@),
{
    highlight_color(v)
}

fn is_change_exec(n: &str) -> (b: bool)
    ensures
        b == is_change(n@),
{
    let c = chars_of(n);
    if c.len() < 6 {
        return false;
    }
    let tail = crate::chars::copy_range(c.as_slice(), c.len() - 6, c.len());
    assert(tail@ =~= n@.skip(n@.len() - 6));
    let t = string_of(tail.as_slice());
    str_eq(t.as_str(), "Change")
}


fn shape_tag_exec(st: &mut Scan, t: &XmlTag)
    requires
        old(st)@.cur_shape is Some,
    ensures
        final(st)@ == shape_tag(old(st)@, old(st)@.cur_shape->0, t@),
{
    let n = t.name.as_str();
    let in_dln = st.in_dln;
    if str_eq(n, "a:xfrm") {
        let fv = crate::wordstyle::attr_is(t, "flipV", "1");
        let fh = crate::wordstyle::attr_is(t, "flipH", "1");
        match &mut st.cur_shape {
            Some(s) => {
                s.flip_v = fv;
                s.flip_h = fh;
            },
            None => {},
        }
    } else if str_eq(n, "a:off") {
        let x = num_exec(t, "x");
        let y = num_exec(t, "y");
        match &mut st.cur_shape {
            Some(s) => {
                s.x = x;
                s.y = y;
            },
            None => {},
        }
    } else if str_eq(n, "a:ext") {
        let w = num_exec(t, "cx");
        let h = num_exec(t, "cy");
        match &mut st.cur_shape {
            Some(s) => {
                s.w = w;
                s.h = h;
            },
            None => {},
        }
    } else if str_eq(n, "a:prstGeom") {
        let prst = match get_attr(t, "prst") {
            Some(p) => chars_of(p.as_str()),
            None => Vec::new(),
        };
        let rounded = contains_sub(prst.as_slice(), "ound") || contains_sub(prst.as_slice(), "allout");
        let ps = string_of(prst.as_slice());
        let is_line = contains_sub(prst.as_slice(), "onnector") || str_eq(ps.as_str(), "line");
        match &mut st.cur_shape {
            Some(s) => {
                s.rounded = rounded;
                s.is_line = is_line;
            },
            None => {},
        }
    } else if str_eq(n, "a:noFill") {
        if in_dln {
            match &mut st.cur_shape {
                Some(s) => {
                    s.outline = None;
                },
                None => {},
            }
        }
    } else {
        match get_attr(t, "val") {
            Some(v) => {
                let c = wcolor_exec(v.as_str());
                match &mut st.cur_shape {
                    Some(s) => {
                        if in_dln {
                            s.outline = Some(c);
                        } else {
                            s.fill = Some(c);
                        }
                    },
                    None => {},
                }
            },
            None => {},
        }
    }
}

#[verifier::rlimit(40)]
fn open_float_exec(st: &mut Scan, t: &XmlTag, empty: bool)
    ensures
        final(st)@ == open_float(old(st)@, t@, empty),
{
    let n = t.name.as_str();
    if str_eq(n, "wp:anchor") {
        let behind = crate::wordstyle::attr_is(t, "behindDoc", "1");
        let f = DFloat {
            off_x: None,
            off_y: None,
            shapes: Vec::new(),
            image_rid: None,
            img_cx: None,
            img_cy: None,
            behind,
            grouped: false,
        };
        assert(shapes_view(f.shapes@) =~= Seq::<ShapeView>::empty());
        st.cur_float = Some(f);
        st.gstack = Vec::new();
        assert(xfrms_view(st.gstack@) =~= Seq::<GroupXfrmView>::empty());
        st.in_grpspr = false;
    } else if str_eq(n, "wp:wrapNone") {
        match &mut st.cur_float {
            Some(f) => {
                f.behind = true;
            },
            None => {},
        }
    } else if str_eq(n, "wp:positionH") {
        st.pos_target = 10;
    } else if str_eq(n, "wp:positionV") {
        st.pos_target = 20;
    } else if str_eq(n, "wp:posOffset") {
        st.pos_target = if st.pos_target >= 20 {
            2
        } else {
            1
        };
    } else if str_eq(n, "w:txbxContent") {
        let ghost before = saved_view(st.para_stack@);
        let p = st.cur_para.take();
        let r = st.cur_run.take();
        let ghost e = (opara(p), orun(r));
        st.para_stack.push((p, r));
        assert(saved_view(st.para_stack@) =~= before.push(e));
        st.in_txbx = true;
    } else if st.in_grpspr && str_eq(n, "a:off") {
        st.g_xfrm.off_x = num_exec(t, "x");
        st.g_xfrm.off_y = num_exec(t, "y");
    } else if st.in_grpspr && str_eq(n, "a:ext") {
        st.g_xfrm.ext_cx = num_exec(t, "cx");
        st.g_xfrm.ext_cy = num_exec(t, "cy");
    } else if st.in_grpspr && str_eq(n, "a:chOff") {
        st.g_xfrm.ch_x = num_exec(t, "x");
        st.g_xfrm.ch_y = num_exec(t, "y");
    } else if st.in_grpspr && str_eq(n, "a:chExt") {
        st.g_xfrm.ch_cx = num_exec(t, "cx");
        st.g_xfrm.ch_cy = num_exec(t, "cy");
    } else if str_eq(n, "wps:wsp") || str_eq(n, "wps:cxnSp") {
        st.cur_shape = Some(new_shape_exec());
    } else if str_eq(n, "wpg:grpSpPr") {
        st.in_grpspr = !empty;
        st.g_xfrm = blank_xfrm_exec();
    } else if str_eq(n, "a:ln") {
        st.in_dln = !empty;
    } else if str_eq(n, "a:blip") {
        match get_attr(t, "r:embed") {
            Some(rid) => {
                match &mut st.cur_float {
                    Some(f) => {
                        f.image_rid = Some(rid);
                    },
                    None => {},
                }
            },
            None => {},
        }
    } else if str_eq(n, "wp:extent") {
        let cx = num_exec(t, "cx");
        let cy = num_exec(t, "cy");
        match &mut st.cur_float {
            Some(f) => {
                f.img_cx = cx;
                f.img_cy = cy;
            },
            None => {},
        }
    } else {
        if st.cur_shape.is_some() {
            shape_tag_exec(st, t);
        }
    }
}


fn take_top(st: &mut Scan) -> (tb: TableBuild)
    requires
        old(st)@.tables.len() > 0,
    ensures
        tb@ == top_table(old(st)@),
        final(st)@ == (ScanView { tables: old(st)@.tables.drop_last(), ..old(st)@ }),
{
    let ghost before = builds_view(st.tables@);
    let tb = st.tables.pop().unwrap();
    assert(builds_view(st.tables@) =~= before.drop_last());
    tb
}

fn put_top(st: &mut Scan, tb: TableBuild)
    ensures
        final(st)@ == (ScanView { tables: old(st)@.tables.push(tb@), ..old(st)@ }),
{
    let ghost before = builds_view(st.tables@);
    let ghost tv = tb@;
    st.tables.push(tb);
    assert(builds_view(st.tables@) =~= before.push(tv));
}

fn border_of_exec(t: &XmlTag) -> (b: Border)
    ensures
        b@ == border_of(t@),
{
    let on = match get_attr(t, "w:val") {
        Some(v) => !(str_eq(v.as_str(), "none") || str_eq(v.as_str(), "nil")),
        None => false,
    };
    let color = match get_attr(t, "w:color") {
        Some(c) => wcolor_exec(c.as_str()),
        None => Color { r: 0, g: 0, b: 0, a: 255 },
    };
    Border { on, color, size: num_exec(t, "w:sz") }
}

fn set_side_exec(b: &mut BorderSet, n: &str, bd: Border)
    ensures
        final(b)@ == set_side(old(b)@, n@, bd@),
{
    if str_eq(n, "w:top") {
        b.top = bd;
    } else if str_eq(n, "w:bottom") {
        b.bottom = bd;
    } else if str_eq(n, "w:left") {
        b.left = bd;
    } else if str_eq(n, "w:right") {
        b.right = bd;
    } else if str_eq(n, "w:insideH") {
        b.inside_h = bd;
    } else {
        b.inside_v = bd;
    }
}

fn table_side_exec(st: &mut Scan, n: &str, bd: Border)
    requires
        old(st)@.tables.len() > 0,
    ensures
        final(st)@ == with_table(
            old(st)@,
            TableView { borders: set_side(top_table(old(st)@).table.borders, n@, bd@), ..top_table(old(st)@).table },
        ),
{
    let mut tb = take_top(st);
    set_side_exec(&mut tb.table.borders, n, bd);
    put_top(st, tb);
}

fn cell_side_exec(st: &mut Scan, n: &str, bd: Border)
    requires
        old(st)@.tables.len() > 0,
        top_table(old(st)@).cur_cell is Some,
    ensures
        final(st)@ == with_cell(
            old(st)@,
            CellView {
                borders: set_side(top_table(old(st)@).cur_cell->0.borders, n@, bd@),
                ..top_table(old(st)@).cur_cell->0
            },
        ),
{
    let mut tb = take_top(st);
    match &mut tb.cur_cell {
        Some(c) => {
            set_side_exec(&mut c.borders, n, bd);
        },
        None => {},
    }
    put_top(st, tb);
}

fn para_side_exec(st: &mut Scan, top: bool, bd: Border)
    ensures
        final(st)@ == match old(st)@.cur_para {
            Some(p) => ScanView {
                cur_para: Some(
                    ParaView {
                        pbdr: ParaBorderView {
                            top: if top {
                                bd@.on
                            } else {
                                p.pbdr.top
                            },
                            bottom: if top {
                                p.pbdr.bottom
                            } else {
                                bd@.on
                            },
                            color: bd@.color,
                            size: bd@.size,
                        },
                        ..p
                    },
                ),
                ..old(st)@
            },
            None => old(st)@,
        },
{
    match &mut st.cur_para {
        Some(p) => {
            if top {
                p.pbdr.top = bd.on;
            } else {
                p.pbdr.bottom = bd.on;
            }
            p.pbdr.color = bd.color;
            p.pbdr.size = bd.size;
        },
        None => {},
    }
}

fn border_side_exec(st: &mut Scan, t: &XmlTag)
    ensures
        final(st)@ == border_side(old(st)@, t@),
{
    let n = t.name.as_str();
    let bd = border_of_exec(t);
    if st.border_ctx == 2 && st.tables.len() > 0 {
        table_side_exec(st, n, bd);
    } else if st.border_ctx == 3 && st.tables.len() > 0 && st.tables[st.tables.len() - 1].cur_cell.is_some() {
        cell_side_exec(st, n, bd);
    } else if st.border_ctx == 1 && (str_eq(n, "w:top") || str_eq(n, "w:bottom")) {
        let top = str_eq(n, "w:top");
        para_side_exec(st, top, bd);
    }
}

fn shd_color_exec(t: &XmlTag) -> (c: Option<Color>)
    ensures
        c == shd_color(t@),
{
    match get_attr(t, "w:fill") {
        Some(f) => {
            let fc = chars_of(f.as_str());
            assert(fc@.skip(0) =~= fc@);
            if lower_is(fc.as_slice(), 0, "auto") || str_eq(f.as_str(), "FFFFFF") {
                None
            } else {
                Some(wcolor_exec(f.as_str()))
            }
        },
        None => None,
    }
}

fn shading_exec(st: &mut Scan, t: &XmlTag)
    ensures
        final(st)@ == shading(old(st)@, t@),
{
    let col = shd_color_exec(t);
    if st.in_tcpr {
        if st.tables.len() > 0 && st.tables[st.tables.len() - 1].cur_cell.is_some() {
            let mut tb = take_top(st);
            match &mut tb.cur_cell {
                Some(c) => {
                    c.shd = col;
                },
                None => {},
            }
            put_top(st, tb);
        }
    } else if st.cur_run.is_some() {
        match &mut st.cur_run {
            Some(r) => {
                if r.direct.highlight.is_none() {
                    r.direct.highlight = col;
                }
            },
            None => {},
        }
    } else {
        match &mut st.cur_para {
            Some(p) => {
                p.shd = col;
            },
            None => {},
        }
    }
}

fn section_ref_exec(t: &XmlTag) -> (r: Option<(String, String)>)
    ensures
        match r {
            Some((a, b)) => section_ref(t@) == Some((a@, b@)),
            None => section_ref(t@) is None,
        },
{
    match (get_attr(t, "w:type"), get_attr(t, "r:id")) {
        (Some(ty), Some(id)) => Some((ty, id)),
        _ => None,
    }
}

fn table_jc_exec(v: Option<String>) -> (a: ParaAlign)
    ensures
        a == table_jc(opt_view(v)),
{
    match v {
        Some(x) => {
            if str_eq(x.as_str(), "center") {
                ParaAlign::Center
            } else if str_eq(x.as_str(), "right") || str_eq(x.as_str(), "end") {
                ParaAlign::Right
            } else {
                ParaAlign::Left
            }
        },
        None => ParaAlign::Left,
    }
}


fn grid_col_exec(st: &mut Scan, w: String)
    requires
        old(st)@.tables.len() > 0,
    ensures
        final(st)@ == with_table(
            old(st)@,
            TableView { grid: top_table(old(st)@).table.grid.push(w@), ..top_table(old(st)@).table },
        ),
{
    let mut tb = take_top(st);
    let ghost before = strs_view(tb.table.grid@);
    let ghost wv = w@;
    tb.table.grid.push(w);
    assert(strs_view(tb.table.grid@) =~= before.push(wv));
    put_top(st, tb);
}

fn open_row(st: &mut Scan)
    requires
        old(st)@.tables.len() > 0,
    ensures
        final(st)@ == with_row(old(st)@, RowView { cells: Seq::empty(), min_h: None, is_header: false }),
{
    let mut tb = take_top(st);
    let r = DRow { cells: Vec::new(), min_h: None, is_header: false };
    assert(cells_view(r.cells@) =~= Seq::<CellView>::empty());
    tb.cur_row = Some(r);
    put_top(st, tb);
}

fn open_cell(st: &mut Scan)
    requires
        old(st)@.tables.len() > 0,
    ensures
        final(st)@ == with_cell(old(st)@, new_cell()),
{
    let mut tb = take_top(st);
    tb.cur_cell = Some(new_cell_exec());
    put_top(st, tb);
}

fn set_table_ind(st: &mut Scan, v: String)
    requires
        old(st)@.tables.len() > 0,
    ensures
        final(st)@ == with_table(old(st)@, TableView { ind: Some(v@), ..top_table(old(st)@).table }),
{
    let mut tb = take_top(st);
    tb.table.ind = Some(v);
    put_top(st, tb);
}

fn open_struct_exec(st: &mut Scan, t: &XmlTag)
    ensures
        final(st)@ == open_struct(old(st)@, t@),
{
    let n = t.name.as_str();
    let has_t = st.tables.len() > 0;
    if str_eq(n, "w:tbl") {
        let tb = TableBuild { table: new_table_exec(), cur_row: None, cur_cell: None };
        put_top(st, tb);
    } else if str_eq(n, "w:tr") {
        if has_t {
            open_row(st);
        }
    } else if str_eq(n, "w:tc") {
        if has_t {
            open_cell(st);
        }
    } else if str_eq(n, "w:gridCol") {
        match num_exec(t, "w:w") {
            Some(w) => {
                if has_t {
                    grid_col_exec(st, w);
                }
            },
            None => {},
        }
    } else if str_eq(n, "w:tblBorders") {
        st.border_ctx = 2;
    } else if str_eq(n, "w:tcBorders") {
        st.border_ctx = 3;
    } else if str_eq(n, "w:pBdr") {
        st.border_ctx = 1;
    } else if str_eq(n, "w:tcPr") {
        st.in_tcpr = true;
    } else {
        match num_exec(t, "w:w") {
            Some(v) => {
                if has_t {
                    set_table_ind(st, v);
                }
            },
            None => {},
        }
    }
}

fn set_grid_span(st: &mut Scan, v: u32)
    requires
        old(st)@.tables.len() > 0,
        top_table(old(st)@).cur_cell is Some,
    ensures
        final(st)@ == with_cell(old(st)@, CellView { grid_span: v, ..top_table(old(st)@).cur_cell->0 }),
{
    let mut tb = take_top(st);
    match &mut tb.cur_cell {
        Some(c) => {
            c.grid_span = v;
        },
        None => {},
    }
    put_top(st, tb);
}

fn set_vmerge(st: &mut Scan, m: VMerge)
    requires
        old(st)@.tables.len() > 0,
        top_table(old(st)@).cur_cell is Some,
    ensures
        final(st)@ == with_cell(old(st)@, CellView { vmerge: m, ..top_table(old(st)@).cur_cell->0 }),
{
    let mut tb = take_top(st);
    match &mut tb.cur_cell {
        Some(c) => {
            c.vmerge = m;
        },
        None => {},
    }
    put_top(st, tb);
}

fn set_valign(st: &mut Scan, va: u8)
    requires
        old(st)@.tables.len() > 0,
        top_table(old(st)@).cur_cell is Some,
    ensures
        final(st)@ == with_cell(old(st)@, CellView { valign: va, ..top_table(old(st)@).cur_cell->0 }),
{
    let mut tb = take_top(st);
    match &mut tb.cur_cell {
        Some(c) => {
            c.valign = va;
        },
        None => {},
    }
    put_top(st, tb);
}

fn set_min_h(st: &mut Scan, v: String)
    requires
        old(st)@.tables.len() > 0,
        top_table(old(st)@).cur_row is Some,
    ensures
        final(st)@ == with_row(old(st)@, RowView { min_h: Some(v@), ..top_table(old(st)@).cur_row->0 }),
{
    let mut tb = take_top(st);
    match &mut tb.cur_row {
        Some(r) => {
            r.min_h = Some(v);
        },
        None => {},
    }
    put_top(st, tb);
}

fn set_header_row(st: &mut Scan)
    requires
        old(st)@.tables.len() > 0,
        top_table(old(st)@).cur_row is Some,
    ensures
        final(st)@ == with_row(old(st)@, RowView { is_header: true, ..top_table(old(st)@).cur_row->0 }),
{
    let mut tb = take_top(st);
    match &mut tb.cur_row {
        Some(r) => {
            r.is_header = true;
        },
        None => {},
    }
    put_top(st, tb);
}

fn has_cell_exec(st: &Scan) -> (b: bool)
    ensures
        b == (st@.tables.len() > 0 && top_table(st@).cur_cell is Some),
{
    st.tables.len() > 0 && st.tables[st.tables.len() - 1].cur_cell.is_some()
}

fn has_row_exec(st: &Scan) -> (b: bool)
    ensures
        b == (st@.tables.len() > 0 && top_table(st@).cur_row is Some),
{
    st.tables.len() > 0 && st.tables[st.tables.len() - 1].cur_row.is_some()
}

fn open_cellrow_exec(st: &mut Scan, t: &XmlTag)
    ensures
        final(st)@ == open_cellrow(old(st)@, t@),
{
    let n = t.name.as_str();
    let has_cell = has_cell_exec(st);
    let has_row = has_row_exec(st);
    if str_eq(n, "w:gridSpan") {
        match get_attr_u32(t, "w:val") {
            Some(v) => {
                if has_cell {
                    set_grid_span(
                        st,
                        if v >= 1 {
                            v
                        } else {
                            1
                        },
                    );
                }
            },
            None => {},
        }
    } else if str_eq(n, "w:vMerge") {
        if has_cell {
            let restart = crate::wordstyle::attr_is(t, "w:val", "restart");
            set_vmerge(
                st,
                if restart {
                    VMerge::Restart
                } else {
                    VMerge::Continue
                },
            );
        }
    } else if str_eq(n, "w:vAlign") {
        if has_cell {
            let va: u8 = if crate::wordstyle::attr_is(t, "w:val", "center") {
                1
            } else if crate::wordstyle::attr_is(t, "w:val", "bottom") {
                2
            } else {
                0
            };
            set_valign(st, va);
        }
    } else if str_eq(n, "w:trHeight") {
        match num_exec(t, "w:val") {
            Some(v) => {
                if has_row {
                    set_min_h(st, v);
                }
            },
            None => {},
        }
    } else {
        if has_row {
            set_header_row(st);
        }
    }
}

fn push_hdr_ref(st: &mut Scan, r: (String, String))
    ensures
        final(st)@ == (ScanView { doc: DocView { hdr_refs: old(st)@.doc.hdr_refs.push((r.0@, r.1@)), ..old(st)@.doc }, ..old(st)@ }),
{
    let ghost before = pairs_view(st.doc.hdr_refs@);
    let ghost rv = (r.0@, r.1@);
    st.doc.hdr_refs.push(r);
    assert(pairs_view(st.doc.hdr_refs@) =~= before.push(rv));
}

fn push_ftr_ref(st: &mut Scan, r: (String, String))
    ensures
        final(st)@ == (ScanView { doc: DocView { ftr_refs: old(st)@.doc.ftr_refs.push((r.0@, r.1@)), ..old(st)@.doc }, ..old(st)@ }),
{
    let ghost before = pairs_view(st.doc.ftr_refs@);
    let ghost rv = (r.0@, r.1@);
    st.doc.ftr_refs.push(r);
    assert(pairs_view(st.doc.ftr_refs@) =~= before.push(rv));
}

fn set_table_align(st: &mut Scan, a: ParaAlign)
    requires
        old(st)@.tables.len() > 0,
    ensures
        final(st)@ == with_table(old(st)@, TableView { align: a, ..top_table(old(st)@).table }),
{
    let mut tb = take_top(st);
    tb.table.align = a;
    put_top(st, tb);
}

fn is_side_exec(n: &str) -> (b: bool)
    ensures
        b == is_side(n@),
{
    str_eq(n, "w:left") || str_eq(n, "w:right") || str_eq(n, "w:top") || str_eq(n, "w:bottom") || str_eq(n, "w:insideH")
        || str_eq(n, "w:insideV")
}

fn open_misc_exec(st: &mut Scan, t: &XmlTag)
    ensures
        final(st)@ == open_misc(old(st)@, t@),
{
    let n = t.name.as_str();
    if is_side_exec(n) {
        if st.border_ctx != 0 {
            border_side_exec(st, t);
        }
    } else if str_eq(n, "w:shd") {
        shading_exec(st, t);
    } else if str_eq(n, "w:headerReference") {
        match section_ref_exec(t) {
            Some(r) => {
                push_hdr_ref(st, r);
            },
            None => {},
        }
    } else if str_eq(n, "w:footerReference") {
        match section_ref_exec(t) {
            Some(r) => {
                push_ftr_ref(st, r);
            },
            None => {},
        }
    } else if str_eq(n, "w:titlePg") {
        st.doc.title_pg = true;
    } else {
        if st.tables.len() > 0 && st.cur_para.is_none() {
            let a = table_jc_exec(get_attr(t, "w:val"));
            set_table_align(st, a);
        }
    }
}

fn is_struct_tag_exec(n: &str) -> (b: bool)
    ensures
        b == is_struct_tag(n@),
{
    str_eq(n, "w:tbl") || str_eq(n, "w:tr") || str_eq(n, "w:tc") || str_eq(n, "w:gridCol") || str_eq(n, "w:tblBorders")
        || str_eq(n, "w:tcBorders") || str_eq(n, "w:pBdr") || str_eq(n, "w:tcPr") || str_eq(n, "w:tblInd")
}

fn is_cellrow_tag_exec(n: &str) -> (b: bool)
    ensures
        b == is_cellrow_tag(n@),
{
    str_eq(n, "w:gridSpan") || str_eq(n, "w:vMerge") || str_eq(n, "w:vAlign") || str_eq(n, "w:trHeight") || str_eq(
        n,
        "w:tblHeader",
    )
}

fn open_table_exec(st: &mut Scan, t: &XmlTag)
    ensures
        final(st)@ == open_table(old(st)@, t@),
{
    if is_struct_tag_exec(t.name.as_str()) {
        open_struct_exec(st, t);
    } else if is_cellrow_tag_exec(t.name.as_str()) {
        open_cellrow_exec(st, t);
    } else {
        open_misc_exec(st, t);
    }
}


fn or_keep_exec(new: Option<String>, old: Option<String>) -> (r: Option<String>)
    ensures
        opt_view(r) == or_keep(opt_view(new), opt_view(old)),
{
    if new.is_some() {
        new
    } else {
        old
    }
}

fn para_ind_exec(st: &mut Scan, t: &XmlTag)
    requires
        old(st)@.cur_para is Some,
    ensures
        final(st)@ == ({
            let p = old(st)@.cur_para->0;
            with_para(
                old(st)@,
                ParaView {
                    ind_left: or_keep(num(t@, "w:left"@), num(t@, "w:start"@)),
                    ind_hanging: num(t@, "w:hanging"@),
                    ind_right: or_keep(or_keep(num(t@, "w:right"@), num(t@, "w:end"@)), p.ind_right),
                    ind_first: or_keep(num(t@, "w:firstLine"@), p.ind_first),
                    ..p
                },
            )
        }),
{
    let left = or_keep_exec(num_exec(t, "w:left"), num_exec(t, "w:start"));
    let hanging = num_exec(t, "w:hanging");
    let right = or_keep_exec(num_exec(t, "w:right"), num_exec(t, "w:end"));
    let first = num_exec(t, "w:firstLine");
    match &mut st.cur_para {
        Some(p) => {
            p.ind_left = left;
            p.ind_hanging = hanging;
            let r2 = or_keep_exec(right, p.ind_right.take());
            p.ind_right = r2;
            let f2 = or_keep_exec(first, p.ind_first.take());
            p.ind_first = f2;
        },
        None => {},
    }
}

fn para_spacing_exec(st: &mut Scan, t: &XmlTag)
    requires
        old(st)@.cur_para is Some,
    ensures
        final(st)@ == ({
            let p = old(st)@.cur_para->0;
            let before = or_keep(num(t@, "w:before"@), p.spc_before);
            let after = or_keep(num(t@, "w:after"@), p.spc_after);
            let p2 = ParaView { spc_before: before, spc_after: after, ..p };
            match num(t@, "w:line"@) {
                Some(l) => if attr_eq(t@, "w:lineRule"@, "exact"@) || attr_eq(t@, "w:lineRule"@, "atLeast"@) {
                    with_para(old(st)@, ParaView { line_exact: Some(l), ..p2 })
                } else {
                    with_para(old(st)@, ParaView { line_mult: Some(l), ..p2 })
                },
                None => with_para(old(st)@, p2),
            }
        }),
{
    let before = num_exec(t, "w:before");
    let after = num_exec(t, "w:after");
    let line = num_exec(t, "w:line");
    let exact = crate::wordstyle::attr_is(t, "w:lineRule", "exact") || crate::wordstyle::attr_is(
        t,
        "w:lineRule",
        "atLeast",
    );
    match &mut st.cur_para {
        Some(p) => {
            let b2 = or_keep_exec(before, p.spc_before.take());
            p.spc_before = b2;
            let a2 = or_keep_exec(after, p.spc_after.take());
            p.spc_after = a2;
            match line {
                Some(l) => {
                    if exact {
                        p.line_exact = Some(l);
                    } else {
                        p.line_mult = Some(l);
                    }
                },
                None => {},
            }
        },
        None => {},
    }
}

fn para_extent_exec(st: &mut Scan, t: &XmlTag)
    requires
        old(st)@.cur_para is Some,
    ensures
        final(st)@ == ({
            let p = old(st)@.cur_para->0;
            with_para(
                old(st)@,
                ParaView { image_cx: or_keep(num(t@, "cx"@), p.image_cx), image_cy: or_keep(num(t@, "cy"@), p.image_cy), ..p },
            )
        }),
{
    let cx = num_exec(t, "cx");
    let cy = num_exec(t, "cy");
    match &mut st.cur_para {
        Some(p) => {
            let x2 = or_keep_exec(cx, p.image_cx.take());
            p.image_cx = x2;
            let y2 = or_keep_exec(cy, p.image_cy.take());
            p.image_cy = y2;
        },
        None => {},
    }
}

fn para_prop_exec(st: &mut Scan, t: &XmlTag)
    requires
        old(st)@.cur_para is Some,
    ensures
        final(st)@ == para_prop(old(st)@, old(st)@.cur_para->0, t@),
{
    let n = t.name.as_str();
    let no_run = st.cur_run.is_none();
    if str_eq(n, "w:numId") {
        match get_attr_u32(t, "w:val") {
            Some(v) => {
                match &mut st.cur_para {
                    Some(p) => {
                        p.num_id = Some(v);
                    },
                    None => {},
                }
            },
            None => {},
        }
    } else if str_eq(n, "w:ilvl") {
        match get_attr_u32(t, "w:val") {
            Some(v) => {
                match &mut st.cur_para {
                    Some(p) => {
                        p.num_ilvl = v;
                    },
                    None => {},
                }
            },
            None => {},
        }
    } else if str_eq(n, "w:ind") {
        if no_run {
            para_ind_exec(st, t);
        }
    } else if str_eq(n, "w:keepLines") || str_eq(n, "w:keepNext") {
        if no_run && crate::wordstyle::bold_val_exec(t) {
            match &mut st.cur_para {
                Some(p) => {
                    p.keep_lines = true;
                },
                None => {},
            }
        }
    } else if str_eq(n, "w:pStyle") {
        match get_attr(t, "w:val") {
            Some(v) => {
                if no_run {
                    match &mut st.cur_para {
                        Some(p) => {
                            p.p_style = Some(v);
                        },
                        None => {},
                    }
                }
            },
            None => {},
        }
    } else if str_eq(n, "w:jc") {
        let a = crate::wordstyle::jc_align_exec(get_attr(t, "w:val"));
        match &mut st.cur_para {
            Some(p) => {
                p.align = Some(a);
            },
            None => {},
        }
    } else if str_eq(n, "w:spacing") {
        if no_run {
            para_spacing_exec(st, t);
        }
    } else if str_eq(n, "w:pageBreakBefore") {
        let b = crate::wordstyle::bold_val_exec(t);
        match &mut st.cur_para {
            Some(p) => {
                p.page_break_before = b;
            },
            None => {},
        }
    } else if str_eq(n, "wp:extent") {
        para_extent_exec(st, t);
    } else {
        match get_attr(t, "r:embed") {
            Some(rid) => {
                match &mut st.cur_para {
                    Some(p) => {
                        p.image_rid = Some(rid);
                    },
                    None => {},
                }
            },
            None => {},
        }
    }
}

fn run_prop_exec(st: &mut Scan, t: &XmlTag)
    requires
        old(st)@.cur_run is Some,
    ensures
        final(st)@ == run_prop(old(st)@, old(st)@.cur_run->0, t@),
{
    let n = t.name.as_str();
    if str_eq(n, "w:rStyle") {
        match get_attr(t, "w:val") {
            Some(v) => {
                match &mut st.cur_run {
                    Some(r) => {
                        r.r_style = Some(v);
                    },
                    None => {},
                }
            },
            None => {},
        }
    } else if str_eq(n, "w:b") {
        let b = crate::wordstyle::bold_val_exec(t);
        match &mut st.cur_run {
            Some(r) => {
                r.direct.bold = Some(b);
            },
            None => {},
        }
    } else if str_eq(n, "w:sz") {
        match num_exec(t, "w:val") {
            Some(v) => {
                match &mut st.cur_run {
                    Some(r) => {
                        r.direct.size = Some(FontSize::HalfPoints(v));
                    },
                    None => {},
                }
            },
            None => {},
        }
    } else if str_eq(n, "w:color") {
        match get_attr(t, "w:val") {
            Some(v) => {
                let c = wcolor_exec(v.as_str());
                match &mut st.cur_run {
                    Some(r) => {
                        r.direct.color = Some(c);
                    },
                    None => {},
                }
            },
            None => {},
        }
    } else if str_eq(n, "w:i") {
        let b = crate::wordstyle::bold_val_exec(t);
        match &mut st.cur_run {
            Some(r) => {
                r.direct.italic = Some(b);
            },
            None => {},
        }
    } else if str_eq(n, "w:u") {
        let b = !crate::wordstyle::attr_is(t, "w:val", "none");
        match &mut st.cur_run {
            Some(r) => {
                r.direct.underline = Some(b);
            },
            None => {},
        }
    } else if str_eq(n, "w:strike") {
        let b = crate::wordstyle::bold_val_exec(t);
        match &mut st.cur_run {
            Some(r) => {
                r.direct.strike = Some(b);
            },
            None => {},
        }
    } else if str_eq(n, "w:vertAlign") {
        let v: i8 = if crate::wordstyle::attr_is(t, "w:val", "superscript") {
            1
        } else if crate::wordstyle::attr_is(t, "w:val", "subscript") {
            -1
        } else {
            0
        };
        match &mut st.cur_run {
            Some(r) => {
                r.direct.vert_align = Some(v);
            },
            None => {},
        }
    } else {
        match get_attr(t, "w:val") {
            Some(v) => {
                let c = highlight_exec(v.as_str());
                match &mut st.cur_run {
                    Some(r) => {
                        r.direct.highlight = c;
                    },
                    None => {},
                }
            },
            None => {},
        }
    }
}

fn page_tag_exec(st: &mut Scan, t: &XmlTag)
    ensures
        final(st)@ == page_tag(old(st)@, t@),
{
    if str_eq(t.name.as_str(), "w:pgSz") {
        let w = or_keep_exec(num_exec(t, "w:w"), st.doc.page_w.take());
        st.doc.page_w = w;
        let h = or_keep_exec(num_exec(t, "w:h"), st.doc.page_h.take());
        st.doc.page_h = h;
    } else {
        let v = or_keep_exec(num_exec(t, "w:left"), st.doc.margin_l.take());
        st.doc.margin_l = v;
        let v = or_keep_exec(num_exec(t, "w:right"), st.doc.margin_r.take());
        st.doc.margin_r = v;
        let v = or_keep_exec(num_exec(t, "w:top"), st.doc.margin_t.take());
        st.doc.margin_t = v;
        let v = or_keep_exec(num_exec(t, "w:bottom"), st.doc.margin_b.take());
        st.doc.margin_b = v;
        let v = or_keep_exec(num_exec(t, "w:header"), st.doc.header_dist.take());
        st.doc.header_dist = v;
        let v = or_keep_exec(num_exec(t, "w:footer"), st.doc.footer_dist.take());
        st.doc.footer_dist = v;
    }
}

fn is_para_prop_exec(n: &str) -> (b: bool)
    ensures
        b == is_para_prop(n@),
{
    str_eq(n, "w:numId") || str_eq(n, "w:ilvl") || str_eq(n, "w:ind") || str_eq(n, "w:keepLines") || str_eq(n, "w:keepNext")
        || str_eq(n, "w:pStyle") || str_eq(n, "w:jc") || str_eq(n, "w:spacing") || str_eq(n, "w:pageBreakBefore")
        || str_eq(n, "wp:extent") || str_eq(n, "a:blip")
}

fn is_run_prop_exec(n: &str) -> (b: bool)
    ensures
        b == is_run_prop(n@),
{
    str_eq(n, "w:rStyle") || str_eq(n, "w:b") || str_eq(n, "w:sz") || str_eq(n, "w:color") || str_eq(n, "w:i") || str_eq(
        n,
        "w:u",
    ) || str_eq(n, "w:strike") || str_eq(n, "w:vertAlign") || str_eq(n, "w:highlight")
}

fn push_char(st: &mut Scan, c: char)
    requires
        old(st)@.cur_run is Some,
    ensures
        final(st)@ == with_run(old(st)@, RunView { text: old(st)@.cur_run->0.text.push(c), ..old(st)@.cur_run->0 }),
{
    match &mut st.cur_run {
        Some(r) => {
            r.text.push(c);
        },
        None => {},
    }
}

fn push_tab_stop(st: &mut Scan, pos: String, a: ParaAlign)
    requires
        old(st)@.cur_para is Some,
    ensures
        final(st)@ == with_para(
            old(st)@,
            ParaView { tab_stops: old(st)@.cur_para->0.tab_stops.push((pos@, a)), ..old(st)@.cur_para->0 },
        ),
{
    match &mut st.cur_para {
        Some(p) => {
            let ghost before = tabs_view(p.tab_stops@);
            let ghost e = (pos@, a);
            p.tab_stops.push((pos, a));
            assert(tabs_view(p.tab_stops@) =~= before.push(e));
        },
        None => {},
    }
}

fn open_para_exec(st: &mut Scan, t: &XmlTag)
    ensures
        final(st)@ == open_para(old(st)@, t@),
{
    let n = t.name.as_str();
    if str_eq(n, "w:p") {
        st.cur_para = Some(new_para_exec());
    } else if str_eq(n, "w:r") {
        st.cur_run = Some(DRun { text: String::new(), direct: RPr::none(), r_style: None });
    } else if str_eq(n, "w:tabs") {
        st.in_tabs = true;
    } else if str_eq(n, "w:t") {
        st.in_t = true;
    } else if str_eq(n, "w:tab") {
        if st.in_tabs {
            match num_exec(t, "w:pos") {
                Some(pos) => {
                    if st.cur_para.is_some() {
                        let a = match get_attr(t, "w:val") {
                            Some(v) => if str_eq(v.as_str(), "center") {
                                ParaAlign::Center
                            } else if str_eq(v.as_str(), "right") || str_eq(v.as_str(), "end") {
                                ParaAlign::Right
                            } else {
                                ParaAlign::Left
                            },
                            None => ParaAlign::Left,
                        };
                        push_tab_stop(st, pos, a);
                    }
                },
                None => {},
            }
        } else if st.cur_run.is_some() {
            push_char(st, '\t');
        }
    } else if str_eq(n, "w:br") {
        if crate::wordstyle::attr_is(t, "w:type", "page") || crate::wordstyle::attr_is(t, "w:type", "column") {
            match &mut st.cur_para {
                Some(p) => {
                    p.page_break_after = true;
                },
                None => {},
            }
        } else if st.cur_run.is_some() {
            push_char(st, '\n');
        }
    } else if str_eq(n, "w:pgSz") || str_eq(n, "w:pgMar") {
        page_tag_exec(st, t);
    } else if is_para_prop_exec(n) {
        if st.cur_para.is_some() {
            para_prop_exec(st, t);
        }
    } else if is_run_prop_exec(n) {
        if st.cur_run.is_some() {
            run_prop_exec(st, t);
        }
    }
}


fn scan_text_exec(st: &mut Scan, x: &String)
    ensures
        final(st)@ == scan_text(old(st)@, x@),
{
    if st.pos_target == 1 || st.pos_target == 2 {
        let v = trim_chars(chars_of(x.as_str()).as_slice());
        if is_float_text(v.as_slice()) {
            let vs = string_of(v.as_slice());
            let first = st.pos_target == 1;
            match &mut st.cur_float {
                Some(f) => {
                    if first {
                        f.off_x = Some(vs);
                    } else {
                        f.off_y = Some(vs);
                    }
                },
                None => {},
            }
        }
    } else if st.in_t {
        match &mut st.cur_run {
            Some(r) => {
                let mut cs = chars_of(r.text.as_str());
                crate::chars::append_chars(&mut cs, chars_of(x.as_str()).as_slice());
                r.text = string_of(cs.as_slice());
            },
            None => {},
        }
    }
}

fn push_block_exec(st: &mut Scan, b: BlockRef)
    ensures
        final(st)@ == push_block(old(st)@, b),
{
    if has_cell_exec(st) {
        let mut tb = take_top(st);
        match &mut tb.cur_cell {
            Some(c) => {
                c.blocks.push(b);
            },
            None => {},
        }
        put_top(st, tb);
    } else {
        st.doc.body.push(b);
    }
}

fn add_para_exec(st: &mut Scan, p: DPara) -> (b: BlockRef)
    ensures
        (final(st)@, b) == add_para(old(st)@, p@),
{
    let i = st.doc.paras.len();
    let ghost before = paras_view(st.doc.paras@);
    let ghost pv = p@;
    st.doc.paras.push(p);
    assert(paras_view(st.doc.paras@) =~= before.push(pv));
    BlockRef::Para(i)
}

fn close_para_exec(st: &mut Scan)
    ensures
        final(st)@ == close_para(old(st)@),
{
    match st.cur_para.take() {
        Some(p) => {
            if st.in_txbx {
                if st.cur_shape.is_some() {
                    let b = add_para_exec(st, p);
                    match &mut st.cur_shape {
                        Some(s) => {
                            s.blocks.push(b);
                        },
                        None => {},
                    }
                }
            } else {
                let b = add_para_exec(st, p);
                push_block_exec(st, b);
            }
        },
        None => {},
    }
}

fn close_table_exec(st: &mut Scan)
    ensures
        final(st)@ == close_table(old(st)@),
{
    if st.tables.len() > 0 {
        let tb = take_top(st);
        let i = st.doc.tables.len();
        let ghost before = tables_view(st.doc.tables@);
        let ghost tv = tb@.table;
        st.doc.tables.push(tb.table);
        assert(tables_view(st.doc.tables@) =~= before.push(tv));
        push_block_exec(st, BlockRef::Table(i));
    }
}

fn close_cell(st: &mut Scan)
    requires
        old(st)@.tables.len() > 0,
        top_table(old(st)@).cur_cell is Some,
    ensures
        final(st)@ == end_cell(old(st)@),
{
    reveal(end_cell);
    let mut tb = take_top(st);
    match tb.cur_cell.take() {
        Some(c) => {
            match &mut tb.cur_row {
                Some(r) => {
                    let ghost before = cells_view(r.cells@);
                    let ghost cv = c@;
                    r.cells.push(c);
                    assert(cells_view(r.cells@) =~= before.push(cv));
                },
                None => {},
            }
        },
        None => {},
    }
    put_top(st, tb);
}

fn close_row(st: &mut Scan)
    requires
        old(st)@.tables.len() > 0,
        top_table(old(st)@).cur_row is Some,
    ensures
        final(st)@ == end_row(old(st)@),
{
    reveal(end_row);
    let mut tb = take_top(st);
    match tb.cur_row.take() {
        Some(r) => {
            let ghost before = rows_view(tb.table.rows@);
            let ghost rv = r@;
            tb.table.rows.push(r);
            assert(rows_view(tb.table.rows@) =~= before.push(rv));
        },
        None => {},
    }
    put_top(st, tb);
}

fn close_txbx(st: &mut Scan)
    ensures
        final(st)@ == end_txbx(old(st)@),
{
    reveal(end_txbx);
    st.in_txbx = false;
    if st.para_stack.len() > 0 {
        let ghost before = saved_view(st.para_stack@);
        let (p, r) = st.para_stack.pop().unwrap();
        assert(saved_view(st.para_stack@) =~= before.drop_last());
        st.cur_para = p;
        st.cur_run = r;
    }
}

fn close_grpsppr(st: &mut Scan)
    requires
        old(st)@.cur_float is Some,
    ensures
        final(st)@ == end_grpsppr(old(st)@),
{
    reveal(end_grpsppr);
    st.in_grpspr = false;
    match &mut st.cur_float {
        Some(f) => {
            f.grouped = true;
        },
        None => {},
    }
    let g = copy_xfrm(&st.g_xfrm);
    let ghost before = xfrms_view(st.gstack@);
    let ghost gv = g@;
    st.gstack.push(g);
    assert(xfrms_view(st.gstack@) =~= before.push(gv));
}

fn close_group(st: &mut Scan)
    ensures
        final(st)@ == end_group(old(st)@),
{
    reveal(end_group);
    if st.gstack.len() > 0 {
        let ghost before = xfrms_view(st.gstack@);
        st.gstack.pop();
        assert(xfrms_view(st.gstack@) =~= before.drop_last());
    }
}

fn close_shape(st: &mut Scan)
    ensures
        final(st)@ == end_shape(old(st)@),
{
    reveal(end_shape);
    match st.cur_shape.take() {
        Some(mut s) => {
            let groups = copy_xfrms(&st.gstack);
            match &mut st.cur_float {
                Some(f) => {
                    s.groups = groups;
                    s.img_cx = copy_opt(&f.img_cx);
                    s.img_cy = copy_opt(&f.img_cy);
                    let ghost before = shapes_view(f.shapes@);
                    let ghost sv = s@;
                    f.shapes.push(s);
                    assert(shapes_view(f.shapes@) =~= before.push(sv));
                },
                None => {},
            }
        },
        None => {},
    }
}

fn close_anchor(st: &mut Scan)
    ensures
        final(st)@ == end_anchor(old(st)@),
{
    reveal(end_anchor);
    match st.cur_float.take() {
        Some(f) => {
            match &mut st.cur_para {
                Some(p) => {
                    let ghost before = floats_view(p.floats@);
                    let ghost fv = f@;
                    p.floats.push(f);
                    assert(floats_view(p.floats@) =~= before.push(fv));
                },
                None => {},
            }
        },
        None => {},
    }
}

fn close_run(st: &mut Scan)
    ensures
        final(st)@ == end_run(old(st)@),
{
    reveal(end_run);
    match st.cur_run.take() {
        Some(r) => {
            if chars_of(r.text.as_str()).len() > 0 {
                match &mut st.cur_para {
                    Some(p) => {
                        let ghost before = runs_view(p.runs@);
                        let ghost rv = r@;
                        p.runs.push(r);
                        assert(runs_view(p.runs@) =~= before.push(rv));
                    },
                    None => {},
                }
            }
        },
        None => {},
    }
}

fn close_tag_exec(st: &mut Scan, n: &String)
    ensures
        final(st)@ == close_tag(old(st)@, n@),
{
    let n = n.as_str();
    if str_eq(n, "w:t") {
        st.in_t = false;
    } else if str_eq(n, "w:tabs") {
        st.in_tabs = false;
    } else if str_eq(n, "w:tblBorders") || str_eq(n, "w:tcBorders") || str_eq(n, "w:pBdr") {
        st.border_ctx = 0;
    } else if str_eq(n, "w:tcPr") {
        st.in_tcpr = false;
    } else if str_eq(n, "wp:posOffset") {
        st.pos_target = 0;
    } else if str_eq(n, "a:ln") && st.cur_float.is_some() {
        st.in_dln = false;
    } else if str_eq(n, "w:txbxContent") {
        close_txbx(st);
    } else if str_eq(n, "wpg:grpSpPr") && st.cur_float.is_some() {
        close_grpsppr(st);
    } else if (str_eq(n, "wpg:grpSp") || str_eq(n, "wpg:wgp")) && st.cur_float.is_some() {
        close_group(st);
    } else if str_eq(n, "wps:wsp") || str_eq(n, "wps:cxnSp") {
        close_shape(st);
    } else if str_eq(n, "wp:anchor") {
        close_anchor(st);
    } else if str_eq(n, "w:r") {
        close_run(st);
    } else if str_eq(n, "w:p") {
        close_para_exec(st);
    } else if str_eq(n, "w:tc") {
        if has_cell_exec(st) {
            close_cell(st);
        } else {
            proof {
                reveal(end_cell);
            }
        }
    } else if str_eq(n, "w:tr") {
        if has_row_exec(st) {
            close_row(st);
        } else {
            proof {
                reveal(end_row);
            }
        }
    } else if str_eq(n, "w:tbl") {
        close_table_exec(st);
    }
}


fn is_float_tag_exec(st: &Scan, n: &str) -> (b: bool)
    ensures
        b == is_float_tag(st@, n@),
{
    let a = str_eq(n, "wp:anchor") || str_eq(n, "wp:wrapNone") || str_eq(n, "wp:positionH") || str_eq(n, "wp:positionV")
        || str_eq(n, "wp:posOffset") || str_eq(n, "w:txbxContent");
    let g = st.in_grpspr && (str_eq(n, "a:off") || str_eq(n, "a:ext") || str_eq(n, "a:chOff") || str_eq(n, "a:chExt"));
    let f = st.cur_float.is_some() && (str_eq(n, "wps:wsp") || str_eq(n, "wps:cxnSp") || str_eq(n, "wpg:grpSpPr")
        || str_eq(n, "a:xfrm") || str_eq(n, "a:off") || str_eq(n, "a:ext") || str_eq(n, "a:prstGeom") || str_eq(
        n,
        "a:ln",
    ) || str_eq(n, "a:noFill") || str_eq(n, "a:srgbClr") || str_eq(n, "a:schemeClr") || str_eq(n, "a:blip")
        || str_eq(n, "wp:extent"));
    a || g || f
}

fn is_table_tag_exec(st: &Scan, n: &str) -> (b: bool)
    ensures
        b == is_table_tag(st@, n@),
{
    let a = str_eq(n, "w:tbl") || str_eq(n, "w:tr") || str_eq(n, "w:tc") || str_eq(n, "w:gridCol") || str_eq(
        n,
        "w:tblBorders",
    ) || str_eq(n, "w:tcBorders") || str_eq(n, "w:pBdr") || str_eq(n, "w:tcPr") || str_eq(n, "w:gridSpan") || str_eq(
        n,
        "w:vMerge",
    ) || str_eq(n, "w:vAlign") || str_eq(n, "w:trHeight") || str_eq(n, "w:tblHeader") || str_eq(n, "w:tblInd");
    let b = is_side_exec(n);
    let c = str_eq(n, "w:shd") || str_eq(n, "w:headerReference") || str_eq(n, "w:footerReference") || str_eq(
        n,
        "w:titlePg",
    );
    let d = str_eq(n, "w:jc") && (st.in_tcpr || (st.tables.len() > 0 && st.cur_para.is_none()));
    a || b || c || d
}

fn scan_open_exec(st: &mut Scan, t: &XmlTag, empty: bool)
    ensures
        final(st)@ == scan_open(old(st)@, t@, empty),
{
    let n = t.name.as_str();
    if is_change_exec(n) {
        if !empty && st.in_change < u64::MAX {
            st.in_change = st.in_change + 1;
        }
    } else if str_eq(n, "mc:Fallback") {
        if !empty && st.in_fallback < u64::MAX {
            st.in_fallback = st.in_fallback + 1;
        }
    } else if st.in_change > 0 || st.in_fallback > 0 {
    } else if is_float_tag_exec(st, n) {
        open_float_exec(st, t, empty);
    } else if is_table_tag_exec(st, n) {
        open_table_exec(st, t);
    } else {
        open_para_exec(st, t);
    }
}

fn scan_close_exec(st: &mut Scan, n: &String)
    ensures
        final(st)@ == scan_close(old(st)@, n@),
{
    if is_change_exec(n.as_str()) {
        if st.in_change > 0 {
            st.in_change = st.in_change - 1;
        }
    } else if str_eq(n.as_str(), "mc:Fallback") {
        if st.in_fallback > 0 {
            st.in_fallback = st.in_fallback - 1;
        }
    } else if st.in_change > 0 || st.in_fallback > 0 {
    } else {
        close_tag_exec(st, n);
    }
}

fn scan_start_exec() -> (st: Scan)
    ensures
        st@ == scan_start(),
{
    let st = Scan {
        doc: DocModel {
            paras: Vec::new(),
            tables: Vec::new(),
            body: Vec::new(),
            page_w: None,
            page_h: None,
            margin_l: None,
            margin_r: None,
            margin_t: None,
            margin_b: None,
            header_dist: None,
            footer_dist: None,
            hdr_refs: Vec::new(),
            ftr_refs: Vec::new(),
            title_pg: false,
        },
        cur_para: None,
        cur_run: None,
        in_t: false,
        in_tabs: false,
        tables: Vec::new(),
        border_ctx: 0,
        in_tcpr: false,
        in_change: 0,
        in_fallback: 0,
        cur_float: None,
        cur_shape: None,
        in_txbx: false,
        in_dln: false,
        pos_target: 0,
        para_stack: Vec::new(),
        gstack: Vec::new(),
        in_grpspr: false,
        g_xfrm: blank_xfrm_exec(),
    };
    assert(paras_view(st.doc.paras@) =~= Seq::<ParaView>::empty());
    assert(tables_view(st.doc.tables@) =~= Seq::<TableView>::empty());
    assert(pairs_view(st.doc.hdr_refs@) =~= Seq::<(Seq<char>, Seq<char>)>::empty());
    assert(pairs_view(st.doc.ftr_refs@) =~= Seq::<(Seq<char>, Seq<char>)>::empty());
    assert(builds_view(st.tables@) =~= Seq::<TableBuildView>::empty());
    assert(saved_view(st.para_stack@) =~= Seq::<(Option<ParaView>, Option<RunView>)>::empty());
    assert(xfrms_view(st.gstack@) =~= Seq::<GroupXfrmView>::empty());
    st
}

/// The document that a body part (`word/document.xml`, a header or a
/// footer) describes: paragraphs with their direct paragraph and run
/// properties and text, tables, floating drawings, page size and margins,
/// and header/footer references. Revision snapshots (`...Change`) and
/// `mc:Fallback` content are skipped.
pub fn parse_body(xml: &str) -> (d: DocModel)
    ensures
        d@ == spec_body(xml_events(xml@)),
{
    let toks = xml_tokens(xml);
    parse_body_events(toks.as_slice())
}

/// What [`parse_body`] computes, from the tokens `toks` of the text.
pub fn parse_body_events(toks: &[XmlEvent]) -> (d: DocModel)
    ensures
        d@ == spec_body(events_view(toks@)),
{
    let ghost evs = events_view(toks@);
    let mut i: usize = 0;
    let mut st = scan_start_exec();
    while i < toks.len()
        invariant
            i <= toks.len(),
            st@ == scan_fold(evs.take(i as int)),
            evs == events_view(toks@),
        decreases toks.len() - i,
    {
        let ghost k = i;
        assert(evs[k as int] == toks@[k as int]@);
        match &toks[i] {
            XmlEvent::Start(t) => {
                scan_open_exec(&mut st, t, false);
                assert(evs.take((k + 1) as int).drop_last() =~= evs.take(k as int));
            },
            XmlEvent::Empty(t) => {
                scan_open_exec(&mut st, t, true);
                assert(evs.take((k + 1) as int).drop_last() =~= evs.take(k as int));
            },
            XmlEvent::Text(x) => {
                scan_text_exec(&mut st, x);
                assert(evs.take((k + 1) as int).drop_last() =~= evs.take(k as int));
            },
            XmlEvent::End(n, _) => {
                scan_close_exec(&mut st, n);
                assert(evs.take((k + 1) as int).drop_last() =~= evs.take(k as int));
            },
            _ => {
                assert(evs.take((k + 1) as int).drop_last() =~= evs.take(k as int));
            },
        }
        i += 1;
    }
    assert(evs.take(toks.len() as int) =~= evs);
    assert(st@ == scan_fold(evs));
    st.doc
}


// ------------------------------------------------------------------------
// Pictures
// ------------------------------------------------------------------------

/// The picture a relationship id names in a Word package: the target under
/// `word/`, its bytes and their decoding, when each step succeeds. Pictures
/// of at most 2 pixels in either direction are spacers and give nothing.
pub open spec fn spec_word_picture(archive: Seq<u8>, rels: Seq<(Seq<char>, Seq<char>)>, rid: Seq<char>) -> Option<
    ImageView,
> {
    match rel_target(rels, rid) {
        Some(target) => match zip_entry(archive, spec_resolve_rel("word"@, target)) {
            Some(b) => match spec_decode(b) {
                Some(img) => if img.width <= 2 || img.height <= 2 {
                    None
                } else {
                    Some(img)
                },
                None => None,
            },
            None => None,
        },
        None => None,
    }
}

/// The picture that relationship `rid` names in a Word package, unless it
/// is a spacer of at most 2 pixels in either direction.
pub fn word_picture(archive: &[u8], rels: &Rels, rid: &str) -> (r: Option<DecodedImage>)
    ensures
        match r {
            Some(i) => spec_word_picture(archive@, rels@, rid@) == Some(i@),
            None => spec_word_picture(archive@, rels@, rid@) is None,
        },
{
    let target = match rels.get(rid) {
        Some(t) => t,
        None => return None,
    };
    let path = resolve_rel("word", target.as_str());
    let bytes = match read_zip_entry(archive, path.as_str()) {
        Some(b) => b,
        None => return None,
    };
    match decode(bytes.as_slice()) {
        Some(img) => {
            if img.width <= 2 || img.height <= 2 {
                None
            } else {
                Some(img)
            }
        },
        None => None,
    }
}

} // verus!
