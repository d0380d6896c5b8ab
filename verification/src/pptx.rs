//! PowerPoint (`.pptx`) decks: slide size and order from
//! `ppt/presentation.xml`, and each slide's shapes (`p:sp`, `p:pic`) with
//! their offsets and extents, solid fills, pictures and text bodies
//! (paragraphs, runs, run size, bold and colour, paragraph alignment).
//! Lengths stay as the attribute texts (EMU, hundredths of a point); they
//! are read as numbers where the slide is laid out.

use vstd::prelude::*;
use crate::chars::{append_chars, chars_of, copy_range, float_text, is_float_text, string_of};
use crate::color::{Color, drawing_color, spec_drawing_color};
use crate::image::{DecodedImage, ImageView, decode, spec_decode};
use crate::package::{Rels, part_text, read_part_text, rel_target, rels_fold, rels_map, resolve_rel, spec_resolve_rel};
use crate::sheet::Align;
use crate::xml::{
    events_view, xml_tokens,
    XmlEvent, XmlEventView, XmlTag, XmlTagView, get_attr, opt_view, read_zip_entry,
    str_eq, tag_attr, xml_events, zip_entry,
};

verus! {

/// Spec values of a list of strings.
pub open spec fn texts_view(v: Seq<String>) -> Seq<Seq<char>> {
    v.map_values(|s: String| s@)
}

/// `v` with the attribute text added, when the attribute is present.
pub open spec fn push_text(v: Seq<Seq<char>>, a: Option<Seq<char>>) -> Seq<Seq<char>> {
    match a {
        Some(x) => v.push(x),
        None => v,
    }
}

fn push_attr(v: &mut Vec<String>, t: &XmlTag, key: &str)
    ensures
        texts_view(final(v)@) == push_text(texts_view(old(v)@), tag_attr(t@, key@)),
{
    match get_attr(t, key) {
        Some(x) => {
            let ghost before = texts_view(v@);
            let ghost xv = x@;
            v.push(x);
            assert(texts_view(v@) =~= before.push(xv));
        },
        None => {},
    }
}

/// A length attribute applied to the value so far: taken when present and a
/// number (`str::parse::<f32>` accepts it), else the value stays.
pub open spec fn set_num(cur: Option<Seq<char>>, a: Option<Seq<char>>) -> Option<Seq<char>> {
    match a {
        Some(v) => if float_text(v) {
            Some(v)
        } else {
            cur
        },
        None => cur,
    }
}

fn set_num_attr(cur: &mut Option<String>, t: &XmlTag, key: &str)
    ensures
        opt_view(*final(cur)) == set_num(opt_view(*old(cur)), tag_attr(t@, key@)),
{
    match get_attr(t, key) {
        Some(v) => {
            if is_float_text(chars_of(v.as_str()).as_slice()) {
                *cur = Some(v);
            }
        },
        None => {},
    }
}

// ------------------------------------------------------------------------
// presentation.xml
// ------------------------------------------------------------------------

/// Slide size and slide relationship ids of `ppt/presentation.xml`.
pub struct Presentation {
    /// The slide width (`p:sldSz` `cx`, EMU) as written, when given.
    pub cx: Option<String>,
    /// The slide height (`p:sldSz` `cy`, EMU) as written, when given.
    pub cy: Option<String>,
    /// The `r:id` of each `p:sldId`, in slide order.
    pub rids: Vec<String>,
}

/// Spec value of a [`Presentation`].
pub struct PresentationView {
    pub cx: Option<Seq<char>>,
    pub cy: Option<Seq<char>>,
    pub rids: Seq<Seq<char>>,
}

impl View for Presentation {
    type V = PresentationView;

    open spec fn view(&self) -> PresentationView {
        PresentationView { cx: opt_view(self.cx), cy: opt_view(self.cy), rids: texts_view(self.rids@) }
    }
}

/// One token of `ppt/presentation.xml`.
pub open spec fn pres_step(p: PresentationView, ev: XmlEventView) -> PresentationView {
    match ev {
        XmlEventView::Start(t) | XmlEventView::Empty(t) => {
            if t.name == "p:sldSz"@ {
                PresentationView {
                    cx: set_num(p.cx, tag_attr(t, "cx"@)),
                    cy: set_num(p.cy, tag_attr(t, "cy"@)),
                    ..p
                }
            } else if t.name == "p:sldId"@ {
                PresentationView { rids: push_text(p.rids, tag_attr(t, "r:id"@)), ..p }
            } else {
                p
            }
        },
        _ => p,
    }
}

/// The presentation scan over a token sequence.
pub open spec fn pres_fold(evs: Seq<XmlEventView>) -> PresentationView
    decreases evs.len(),
{
    if evs.len() == 0 {
        PresentationView { cx: None, cy: None, rids: Seq::empty() }
    } else {
        pres_step(pres_fold(evs.drop_last()), evs.last())
    }
}

fn pres_open(p: &mut Presentation, t: &XmlTag)
    ensures
        final(p)@ == pres_step(old(p)@, XmlEventView::Start(t@)),
{
    if str_eq(t.name.as_str(), "p:sldSz") {
        set_num_attr(&mut p.cx, t, "cx");
        set_num_attr(&mut p.cy, t, "cy");
    } else if str_eq(t.name.as_str(), "p:sldId") {
        push_attr(&mut p.rids, t, "r:id");
    }
}

/// Slide size and order from the tokens of `ppt/presentation.xml`.
pub fn parse_presentation(xml: &str) -> (r: Presentation)
    ensures
        r@ == pres_fold(xml_events(xml@)),
{
    let toks = xml_tokens(xml);
    parse_presentation_events(toks.as_slice())
}

/// What [`parse_presentation`] computes, from the tokens `toks` of the text.
pub fn parse_presentation_events(toks: &[XmlEvent]) -> (r: Presentation)
    ensures
        r@ == pres_fold(events_view(toks@)),
{
    let ghost evs = events_view(toks@);
    let mut i: usize = 0;
    let mut p = Presentation { cx: None, cy: None, rids: Vec::new() };
    assert(p@.rids =~= Seq::<Seq<char>>::empty());
    while i < toks.len()
        invariant
            i <= toks.len(),
            p@ == pres_fold(evs.take(i as int)),
            evs == events_view(toks@),
        decreases toks.len() - i,
    {
        let ghost k = i;
        assert(evs[k as int] == toks@[k as int]@);
        match &toks[i] {
            XmlEvent::Start(t) => {
                pres_open(&mut p, t);
                assert(evs.take((k + 1) as int).drop_last() =~= evs.take(k as int));
            },
            XmlEvent::Empty(t) => {
                pres_open(&mut p, t);
                assert(evs.take((k + 1) as int).drop_last() =~= evs.take(k as int));
            },
            _ => {
                assert(evs.take((k + 1) as int).drop_last() =~= evs.take(k as int));
            },
        }
        i += 1;
    }
    assert(evs.take(toks.len() as int) =~= evs);
    p
}

// ------------------------------------------------------------------------
// Slides
// ------------------------------------------------------------------------

/// A text run: its text, its size (`sz`, hundredths of a point) as written
/// when given, bold, and colour.
pub struct SlideRun {
    pub text: String,
    pub size: Option<String>,
    pub bold: bool,
    pub color: Color,
}

/// Spec value of a [`SlideRun`].
pub struct RunView {
    pub text: Seq<char>,
    pub size: Option<Seq<char>>,
    pub bold: bool,
    pub color: Color,
}

impl View for SlideRun {
    type V = RunView;

    open spec fn view(&self) -> RunView {
        RunView { text: self.text@, size: opt_view(self.size), bold: self.bold, color: self.color }
    }
}

/// A paragraph of a text body.
pub struct SlidePara {
    pub runs: Vec<SlideRun>,
    pub align: Align,
}

/// Spec value of a [`SlidePara`].
pub struct ParaView {
    pub runs: Seq<RunView>,
    pub align: Align,
}

impl View for SlidePara {
    type V = ParaView;

    open spec fn view(&self) -> ParaView {
        ParaView { runs: self.runs@.map_values(|r: SlideRun| r@), align: self.align }
    }
}

/// A shape or picture: its offset (`a:off` `x`/`y`) and extent (`a:ext`
/// `cx`/`cy`) as written (EMU) when given, solid fill, paragraphs and picture.
pub struct SlideShape {
    pub x: Option<String>,
    pub y: Option<String>,
    pub cx: Option<String>,
    pub cy: Option<String>,
    pub fill: Option<Color>,
    pub paras: Vec<SlidePara>,
    pub image: Option<DecodedImage>,
}

/// Spec value of a [`SlideShape`].
pub struct ShapeView {
    pub x: Option<Seq<char>>,
    pub y: Option<Seq<char>>,
    pub cx: Option<Seq<char>>,
    pub cy: Option<Seq<char>>,
    pub fill: Option<Color>,
    pub paras: Seq<ParaView>,
    pub image: Option<ImageView>,
}

impl View for SlideShape {
    type V = ShapeView;

    open spec fn view(&self) -> ShapeView {
        ShapeView {
            x: opt_view(self.x),
            y: opt_view(self.y),
            cx: opt_view(self.cx),
            cy: opt_view(self.cy),
            fill: self.fill,
            paras: self.paras@.map_values(|p: SlidePara| p@),
            image: match &self.image {
                Some(i) => Some(i@),
                None => None,
            },
        }
    }
}

/// A shape as `p:sp`/`p:pic` opens it.
pub open spec fn new_shape() -> ShapeView {
    ShapeView {
        x: None,
        y: None,
        cx: None,
        cy: None,
        fill: None,
        paras: Seq::empty(),
        image: None,
    }
}

/// A run as `a:r` opens it: empty, no size, regular, black.
pub open spec fn new_run() -> RunView {
    RunView { text: Seq::empty(), size: None, bold: false, color: Color { r: 0, g: 0, b: 0, a: 255 } }
}

/// State of a slide scan.
pub struct SlideScanView {
    pub shapes: Seq<ShapeView>,
    pub cur: Option<ShapeView>,
    pub in_sppr: bool,
    pub in_rpr: bool,
    pub cur_para: Option<ParaView>,
    pub cur_align: Align,
    pub cur_run: Option<RunView>,
    pub in_t: bool,
}

/// Where a slide's pictures come from: the package, the slide's
/// relationships and the slide's directory.
pub struct SlideSource {
    pub archive: Seq<u8>,
    pub rels: Seq<(Seq<char>, Seq<char>)>,
    pub dir: Seq<char>,
}

/// The picture an `a:blip` embeds, when its relationship, part and decoding
/// all succeed.
pub open spec fn blip_image(src: SlideSource, t: XmlTagView) -> Option<ImageView> {
    match tag_attr(t, "r:embed"@) {
        Some(rid) => match rel_target(src.rels, rid) {
            Some(target) => match zip_entry(src.archive, spec_resolve_rel(src.dir, target)) {
                Some(b) => spec_decode(b),
                None => None,
            },
            None => None,
        },
        None => None,
    }
}

/// Alignment named by an `a:pPr` `algn` value.
pub open spec fn algn_of(t: XmlTagView) -> Align {
    if tag_attr(t, "algn"@) == Some("ctr"@) {
        Align::Center
    } else if tag_attr(t, "algn"@) == Some("r"@) {
        Align::Right
    } else {
        Align::Left
    }
}

/// A start or empty tag of a slide.
pub open spec fn slide_open(src: SlideSource, st: SlideScanView, t: XmlTagView) -> SlideScanView {
    let n = t.name;
    if n == "p:sp"@ || n == "p:pic"@ {
        SlideScanView { cur: Some(new_shape()), ..st }
    } else if n == "p:spPr"@ {
        SlideScanView { in_sppr: true, ..st }
    } else if n == "a:blip"@ {
        match (st.cur, blip_image(src, t)) {
            (Some(s), Some(img)) => SlideScanView { cur: Some(ShapeView { image: Some(img), ..s }), ..st },
            _ => st,
        }
    } else if n == "a:off"@ {
        match st.cur {
            Some(s) => SlideScanView {
                cur: Some(
                    ShapeView {
                        x: set_num(s.x, tag_attr(t, "x"@)),
                        y: set_num(s.y, tag_attr(t, "y"@)),
                        ..s
                    },
                ),
                ..st
            },
            None => st,
        }
    } else if n == "a:ext"@ {
        match st.cur {
            Some(s) => SlideScanView {
                cur: Some(
                    ShapeView {
                        cx: set_num(s.cx, tag_attr(t, "cx"@)),
                        cy: set_num(s.cy, tag_attr(t, "cy"@)),
                        ..s
                    },
                ),
                ..st
            },
            None => st,
        }
    } else if n == "a:srgbClr"@ {
        match tag_attr(t, "val"@) {
            Some(v) => {
                let col = spec_drawing_color(vstd::utf8::encode_utf8(v));
                if st.in_rpr {
                    match st.cur_run {
                        Some(r) => SlideScanView { cur_run: Some(RunView { color: col, ..r }), ..st },
                        None => st,
                    }
                } else if st.in_sppr {
                    match st.cur {
                        Some(s) => SlideScanView { cur: Some(ShapeView { fill: Some(col), ..s }), ..st },
                        None => st,
                    }
                } else {
                    st
                }
            },
            None => st,
        }
    } else if n == "a:p"@ {
        SlideScanView {
            cur_align: Align::Left,
            cur_para: Some(ParaView { runs: Seq::empty(), align: Align::Left }),
            ..st
        }
    } else if n == "a:pPr"@ {
        SlideScanView { cur_align: algn_of(t), ..st }
    } else if n == "a:r"@ {
        SlideScanView { cur_run: Some(new_run()), ..st }
    } else if n == "a:rPr"@ {
        SlideScanView {
            in_rpr: true,
            cur_run: match st.cur_run {
                Some(r) => Some(
                    RunView {
                        size: set_num(r.size, tag_attr(t, "sz"@)),
                        bold: tag_attr(t, "b"@) == Some("1"@),
                        ..r
                    },
                ),
                None => None,
            },
            ..st
        }
    } else if n == "a:t"@ {
        SlideScanView { in_t: true, ..st }
    } else {
        st
    }
}

/// An end tag of a slide.
pub open spec fn slide_close(st: SlideScanView, n: Seq<char>) -> SlideScanView {
    if n == "p:spPr"@ {
        SlideScanView { in_sppr: false, ..st }
    } else if n == "a:rPr"@ {
        SlideScanView { in_rpr: false, ..st }
    } else if n == "a:t"@ {
        SlideScanView { in_t: false, ..st }
    } else if n == "a:r"@ {
        SlideScanView {
            cur_para: match (st.cur_para, st.cur_run) {
                (Some(p), Some(r)) => Some(
                    if r.text.len() > 0 {
                        ParaView { runs: p.runs.push(r), ..p }
                    } else {
                        p
                    },
                ),
                _ => st.cur_para,
            },
            cur_run: None,
            ..st
        }
    } else if n == "a:p"@ {
        SlideScanView {
            cur: match (st.cur, st.cur_para) {
                (Some(s), Some(p)) => Some(
                    ShapeView { paras: s.paras.push(ParaView { align: st.cur_align, ..p }), ..s },
                ),
                _ => st.cur,
            },
            cur_para: None,
            ..st
        }
    } else if n == "p:sp"@ || n == "p:pic"@ {
        match st.cur {
            Some(s) => SlideScanView { shapes: st.shapes.push(s), cur: None, ..st },
            None => st,
        }
    } else {
        st
    }
}

/// One token of a slide.
pub open spec fn slide_step(src: SlideSource, st: SlideScanView, ev: XmlEventView) -> SlideScanView {
    match ev {
        XmlEventView::Start(t) | XmlEventView::Empty(t) => slide_open(src, st, t),
        XmlEventView::Text(x) => {
            if st.in_t {
                match st.cur_run {
                    Some(r) => SlideScanView { cur_run: Some(RunView { text: r.text + x, ..r }), ..st },
                    None => st,
                }
            } else {
                st
            }
        },
        XmlEventView::End(n, _) => slide_close(st, n),
        _ => st,
    }
}

/// The start of a slide scan.
pub open spec fn slide_start() -> SlideScanView {
    SlideScanView {
        shapes: Seq::empty(),
        cur: None,
        in_sppr: false,
        in_rpr: false,
        cur_para: None,
        cur_align: Align::Left,
        cur_run: None,
        in_t: false,
    }
}

/// A slide scan over a token sequence.
pub open spec fn slide_fold(src: SlideSource, evs: Seq<XmlEventView>) -> SlideScanView
    decreases evs.len(),
{
    if evs.len() == 0 {
        slide_start()
    } else {
        slide_step(src, slide_fold(src, evs.drop_last()), evs.last())
    }
}

/// Spec values of a shape list.
pub open spec fn shapes_view(v: Seq<SlideShape>) -> Seq<ShapeView> {
    v.map_values(|s: SlideShape| s@)
}

struct SlideScan {
    shapes: Vec<SlideShape>,
    cur: Option<SlideShape>,
    in_sppr: bool,
    in_rpr: bool,
    cur_para: Option<SlidePara>,
    cur_align: Align,
    cur_run: Option<SlideRun>,
    in_t: bool,
}

impl View for SlideScan {
    type V = SlideScanView;

    closed spec fn view(&self) -> SlideScanView {
        SlideScanView {
            shapes: shapes_view(self.shapes@),
            cur: match &self.cur {
                Some(s) => Some(s@),
                None => None,
            },
            in_sppr: self.in_sppr,
            in_rpr: self.in_rpr,
            cur_para: match &self.cur_para {
                Some(p) => Some(p@),
                None => None,
            },
            cur_align: self.cur_align,
            cur_run: match &self.cur_run {
                Some(r) => Some(r@),
                None => None,
            },
            in_t: self.in_t,
        }
    }
}

fn fresh_shape() -> (s: SlideShape)
    ensures
        s@ == new_shape(),
{
    let s = SlideShape {
        x: None,
        y: None,
        cx: None,
        cy: None,
        fill: None,
        paras: Vec::new(),
        image: None,
    };
    assert(s@.paras =~= Seq::<ParaView>::empty());
    s
}

fn fresh_run() -> (r: SlideRun)
    ensures
        r@ == new_run(),
{
    SlideRun { text: String::new(), size: None, bold: false, color: Color::black() }
}

fn blip_image_exec(archive: &[u8], rels: &Rels, dir: &str, t: &XmlTag) -> (r: Option<DecodedImage>)
    ensures
        match r {
            Some(i) => blip_image(SlideSource { archive: archive@, rels: rels@, dir: dir@ }, t@)
                == Some(i@),
            None => blip_image(SlideSource { archive: archive@, rels: rels@, dir: dir@ }, t@) is None,
        },
{
    let rid = match get_attr(t, "r:embed") {
        Some(r) => r,
        None => return None,
    };
    let target = match rels.get(rid.as_str()) {
        Some(x) => x,
        None => return None,
    };
    let path = resolve_rel(dir, target.as_str());
    match read_zip_entry(archive, path.as_str()) {
        Some(b) => decode(b.as_slice()),
        None => None,
    }
}

fn slide_open_exec(archive: &[u8], rels: &Rels, dir: &str, st: &mut SlideScan, t: &XmlTag)
    ensures
        final(st)@ == slide_open(SlideSource { archive: archive@, rels: rels@, dir: dir@ }, old(st)@, t@),
{
    let n = t.name.as_str();
    if str_eq(n, "p:sp") || str_eq(n, "p:pic") {
        st.cur = Some(fresh_shape());
    } else if str_eq(n, "p:spPr") {
        st.in_sppr = true;
    } else if str_eq(n, "a:blip") {
        if st.cur.is_some() {
            match blip_image_exec(archive, rels, dir, t) {
                Some(img) => {
                    match &mut st.cur {
                        Some(s) => {
                            s.image = Some(img);
                        },
                        None => {},
                    }
                },
                None => {},
            }
        }
    } else if str_eq(n, "a:off") {
        match &mut st.cur {
            Some(s) => {
                set_num_attr(&mut s.x, t, "x");
                set_num_attr(&mut s.y, t, "y");
            },
            None => {},
        }
    } else if str_eq(n, "a:ext") {
        match &mut st.cur {
            Some(s) => {
                set_num_attr(&mut s.cx, t, "cx");
                set_num_attr(&mut s.cy, t, "cy");
            },
            None => {},
        }
    } else if str_eq(n, "a:srgbClr") {
        match get_attr(t, "val") {
            Some(v) => {
                let col = drawing_color(v.as_str());
                if st.in_rpr {
                    match &mut st.cur_run {
                        Some(r) => {
                            r.color = col;
                        },
                        None => {},
                    }
                } else if st.in_sppr {
                    match &mut st.cur {
                        Some(s) => {
                            s.fill = Some(col);
                        },
                        None => {},
                    }
                }
            },
            None => {},
        }
    } else if str_eq(n, "a:p") {
        st.cur_align = Align::Left;
        let p = SlidePara { runs: Vec::new(), align: Align::Left };
        assert(p@.runs =~= Seq::<RunView>::empty());
        st.cur_para = Some(p);
    } else if str_eq(n, "a:pPr") {
        let a = match get_attr(t, "algn") {
            Some(v) => if str_eq(v.as_str(), "ctr") {
                Align::Center
            } else if str_eq(v.as_str(), "r") {
                Align::Right
            } else {
                Align::Left
            },
            None => Align::Left,
        };
        proof {
            reveal_strlit("ctr");
            reveal_strlit("r");
        }
        st.cur_align = a;
    } else if str_eq(n, "a:r") {
        st.cur_run = Some(fresh_run());
    } else if str_eq(n, "a:rPr") {
        st.in_rpr = true;
        let bold = match get_attr(t, "b") {
            Some(v) => str_eq(v.as_str(), "1"),
            None => false,
        };
        match &mut st.cur_run {
            Some(r) => {
                set_num_attr(&mut r.size, t, "sz");
                r.bold = bold;
            },
            None => {},
        }
    } else if str_eq(n, "a:t") {
        st.in_t = true;
    }
}

fn slide_text_exec(st: &mut SlideScan, x: &String)
    ensures
        final(st)@ == slide_step(
            SlideSource { archive: Seq::empty(), rels: Seq::empty(), dir: Seq::empty() },
            old(st)@,
            XmlEventView::Text(x@),
        ),
{
    if st.in_t {
        match &mut st.cur_run {
            Some(r) => {
                let mut cs = chars_of(r.text.as_str());
                let xs = chars_of(x.as_str());
                append_chars(&mut cs, xs.as_slice());
                r.text = string_of(cs.as_slice());
            },
            None => {},
        }
    }
}

fn slide_close_exec(st: &mut SlideScan, name: &String)
    ensures
        final(st)@ == slide_close(old(st)@, name@),
{
    let n = name.as_str();
    if str_eq(n, "p:spPr") {
        st.in_sppr = false;
    } else if str_eq(n, "a:rPr") {
        st.in_rpr = false;
    } else if str_eq(n, "a:t") {
        st.in_t = false;
    } else if str_eq(n, "a:r") {
        let mut run: Option<SlideRun> = None;
        std::mem::swap(&mut run, &mut st.cur_run);
        match (&mut st.cur_para, run) {
            (Some(p), Some(r)) => {
                if !r.text.as_str().is_empty() {
                    let ghost before = p@.runs;
                    let ghost rv = r@;
                    p.runs.push(r);
                    assert(p@.runs =~= before.push(rv));
                }
            },
            _ => {},
        }
    } else if str_eq(n, "a:p") {
        let mut para: Option<SlidePara> = None;
        std::mem::swap(&mut para, &mut st.cur_para);
        let align = st.cur_align;
        match (&mut st.cur, para) {
            (Some(s), Some(mut p)) => {
                p.align = align;
                let ghost before = s@.paras;
                let ghost pv = p@;
                s.paras.push(p);
                assert(s@.paras =~= before.push(pv));
            },
            _ => {},
        }
    } else if str_eq(n, "p:sp") || str_eq(n, "p:pic") {
        if st.cur.is_some() {
            let mut cur: Option<SlideShape> = None;
            std::mem::swap(&mut cur, &mut st.cur);
            match cur {
                Some(s) => {
                    let ghost before = shapes_view(st.shapes@);
                    let ghost sv = s@;
                    st.shapes.push(s);
                    assert(shapes_view(st.shapes@) =~= before.push(sv));
                },
                None => {},
            }
        }
    }
}

/// Shapes of a slide from its tokens; pictures are read from `archive`
/// through the slide's relationships, relative to the slide's directory.
pub fn parse_slide(xml: &str, archive: &[u8], rels: &Rels, dir: &str) -> (r: Vec<SlideShape>)
    ensures
        shapes_view(r@) == slide_fold(
            SlideSource { archive: archive@, rels: rels@, dir: dir@ },
            xml_events(xml@),
        ).shapes,
{
    let toks = xml_tokens(xml);
    parse_slide_events(toks.as_slice(), archive, rels, dir)
}

/// What [`parse_slide`] computes, from the tokens `toks` of the text.
pub fn parse_slide_events(toks: &[XmlEvent], archive: &[u8], rels: &Rels, dir: &str) -> (r: Vec<SlideShape>)
    ensures
        shapes_view(r@) == slide_fold(
            SlideSource { archive: archive@, rels: rels@, dir: dir@ },
            events_view(toks@),
        ).shapes,
{
    let ghost src = SlideSource { archive: archive@, rels: rels@, dir: dir@ };
    let ghost evs = events_view(toks@);
    let mut i: usize = 0;
    let mut st = SlideScan {
        shapes: Vec::new(),
        cur: None,
        in_sppr: false,
        in_rpr: false,
        cur_para: None,
        cur_align: Align::Left,
        cur_run: None,
        in_t: false,
    };
    assert(shapes_view(st.shapes@) =~= Seq::<ShapeView>::empty());
    assert(st@ == slide_start());
    while i < toks.len()
        invariant
            i <= toks.len(),
            st@ == slide_fold(src, evs.take(i as int)),
            evs == events_view(toks@),
            src == (SlideSource { archive: archive@, rels: rels@, dir: dir@ }),
        decreases toks.len() - i,
    {
        let ghost k = i;
        assert(evs[k as int] == toks@[k as int]@);
        match &toks[i] {
            XmlEvent::Start(t) => {
                slide_open_exec(archive, rels, dir, &mut st, t);
                assert(evs.take((k + 1) as int).drop_last() =~= evs.take(k as int));
            },
            XmlEvent::Empty(t) => {
                slide_open_exec(archive, rels, dir, &mut st, t);
                assert(evs.take((k + 1) as int).drop_last() =~= evs.take(k as int));
            },
            XmlEvent::Text(x) => {
                slide_text_exec(&mut st, x);
                assert(evs.take((k + 1) as int).drop_last() =~= evs.take(k as int));
            },
            XmlEvent::End(n, _) => {
                slide_close_exec(&mut st, n);
                assert(evs.take((k + 1) as int).drop_last() =~= evs.take(k as int));
            },
            _ => {
                assert(evs.take((k + 1) as int).drop_last() =~= evs.take(k as int));
            },
        }
        i += 1;
    }
    assert(evs.take(toks.len() as int) =~= evs);
    st.shapes
}

// ------------------------------------------------------------------------
// Decks
// ------------------------------------------------------------------------

/// Index of the last `/` in `s`, or -1.
pub open spec fn rfind_slash(s: Seq<char>) -> int
    decreases s.len(),
{
    if s.len() == 0 {
        -1
    } else if s.last() == '/' {
        s.len() - 1
    } else {
        rfind_slash(s.drop_last())
    }
}

/// `str::rsplit_once('/')`, with `("", s)` when there is no `/`.
pub open spec fn split_dir(s: Seq<char>) -> (Seq<char>, Seq<char>) {
    let k = rfind_slash(s);
    if k < 0 {
        (Seq::empty(), s)
    } else {
        (s.take(k), s.skip(k + 1))
    }
}

/// Relationship pairs of a part's text, none when it is missing.
pub open spec fn rels_of(t: Option<Seq<char>>) -> Seq<(Seq<char>, Seq<char>)> {
    match t {
        Some(x) => rels_fold(xml_events(x)),
        None => Seq::empty(),
    }
}

/// The shapes of the slide that relationship `rid` of the presentation
/// names, when that relationship and the slide part exist.
pub open spec fn slide_of(archive: Seq<u8>, rels: Seq<(Seq<char>, Seq<char>)>, rid: Seq<char>) -> Option<
    Seq<ShapeView>,
> {
    match rel_target(rels, rid) {
        None => None,
        Some(target) => {
            let path = spec_resolve_rel("ppt"@, target);
            let (dir, file) = split_dir(path);
            match part_text(archive, path) {
                None => None,
                Some(xml) => {
                    let srels = rels_of(part_text(archive, dir + "/_rels/"@ + file + ".rels"@));
                    Some(
                        slide_fold(SlideSource { archive, rels: srels, dir }, xml_events(xml)).shapes,
                    )
                },
            }
        },
    }
}

/// The slides of the relationship ids, in order, skipping those that cannot
/// be read.
pub open spec fn deck_slides(archive: Seq<u8>, rels: Seq<(Seq<char>, Seq<char>)>, rids: Seq<Seq<char>>) -> Seq<
    Seq<ShapeView>,
>
    decreases rids.len(),
{
    if rids.len() == 0 {
        Seq::empty()
    } else {
        let prev = deck_slides(archive, rels, rids.drop_last());
        match slide_of(archive, rels, rids.last()) {
            Some(s) => prev.push(s),
            None => prev,
        }
    }
}

/// A parsed deck: its slides' shapes, and the slide size as written.
pub struct DeckModel {
    pub slides: Vec<Vec<SlideShape>>,
    pub cx: Option<String>,
    pub cy: Option<String>,
}

/// Slides and size texts of a `.pptx` package (nothing when its
/// `ppt/presentation.xml` cannot be read).
pub open spec fn spec_deck(archive: Seq<u8>) -> (Seq<Seq<ShapeView>>, Option<Seq<char>>, Option<Seq<char>>) {
    match part_text(archive, "ppt/presentation.xml"@) {
        None => (Seq::empty(), None, None),
        Some(pres) => {
            let p = pres_fold(xml_events(pres));
            let rels = rels_of(part_text(archive, "ppt/_rels/presentation.xml.rels"@));
            (deck_slides(archive, rels, p.rids), p.cx, p.cy)
        },
    }
}

/// Spec values of a deck's slides.
pub open spec fn slides_view(v: Seq<Vec<SlideShape>>) -> Seq<Seq<ShapeView>> {
    v.map_values(|s: Vec<SlideShape>| shapes_view(s@))
}

fn split_dir_exec(path: &str) -> (r: (String, String))
    ensures
        (r.0@, r.1@) == split_dir(path@),
{
    let cs = chars_of(path);
    let mut k = cs.len();
    assert(cs@.take(k as int) =~= cs@);
    while k > 0 && cs[k - 1] != '/'
        invariant
            k <= cs.len(),
            cs@ == path@,
            rfind_slash(cs@.take(k as int)) == rfind_slash(cs@),
        decreases k,
    {
        assert(cs@.take(k as int).drop_last() =~= cs@.take(k - 1));
        k -= 1;
    }
    if k == 0 {
        assert(cs@.take(0) =~= Seq::<char>::empty());
        return (String::new(), string_of(cs.as_slice()));
    }
    assert(cs@.take(k as int).last() == '/');
    let d = copy_range(cs.as_slice(), 0, k - 1);
    let f = copy_range(cs.as_slice(), k, cs.len());
    assert(d@ =~= cs@.take(k - 1));
    assert(f@ =~= cs@.skip(k as int));
    (string_of(d.as_slice()), string_of(f.as_slice()))
}

fn rels_of_exec(t: Option<String>) -> (r: Rels)
    ensures
        r@ == rels_of(opt_view(t)),
{
    match t {
        Some(x) => rels_map(x.as_str()),
        None => {
            let r = Rels { pairs: Vec::new() };
            assert(r@ =~= Seq::<(Seq<char>, Seq<char>)>::empty());
            r
        },
    }
}

fn slide_of_exec(archive: &[u8], rels: &Rels, rid: &str) -> (r: Option<Vec<SlideShape>>)
    ensures
        match r {
            Some(v) => slide_of(archive@, rels@, rid@) == Some(shapes_view(v@)),
            None => slide_of(archive@, rels@, rid@) is None,
        },
{
    let target = match rels.get(rid) {
        Some(t) => t,
        None => return None,
    };
    let path = resolve_rel("ppt", target.as_str());
    let (dir, file) = split_dir_exec(path.as_str());
    let xml = match read_part_text(archive, path.as_str()) {
        Some(x) => x,
        None => return None,
    };
    let mut rp = chars_of(dir.as_str());
    append_chars(&mut rp, chars_of("/_rels/").as_slice());
    append_chars(&mut rp, chars_of(file.as_str()).as_slice());
    append_chars(&mut rp, chars_of(".rels").as_slice());
    let rels_path = string_of(rp.as_slice());
    let srels = rels_of_exec(read_part_text(archive, rels_path.as_str()));
    Some(parse_slide(xml.as_str(), archive, &srels, dir.as_str()))
}

/// Parses a `.pptx` package into slides of shapes.
pub fn parse_deck(bytes: &[u8]) -> (d: DeckModel)
    ensures
        (slides_view(d.slides@), opt_view(d.cx), opt_view(d.cy)) == spec_deck(bytes@),
{
    let pres = match read_part_text(bytes, "ppt/presentation.xml") {
        Some(p) => p,
        None => {
            let d = DeckModel { slides: Vec::new(), cx: None, cy: None };
            assert(slides_view(d.slides@) =~= Seq::<Seq<ShapeView>>::empty());
            return d;
        },
    };
    let p = parse_presentation(pres.as_str());
    let rels = rels_of_exec(read_part_text(bytes, "ppt/_rels/presentation.xml.rels"));
    let ghost rids = p@.rids;
    let mut slides: Vec<Vec<SlideShape>> = Vec::new();
    let mut i: usize = 0;
    assert(slides_view(slides@) =~= deck_slides(bytes@, rels@, rids.take(0)));
    while i < p.rids.len()
        invariant
            i <= p.rids.len(),
            rids == p@.rids,
            slides_view(slides@) == deck_slides(bytes@, rels@, rids.take(i as int)),
        decreases p.rids.len() - i,
    {
        assert(rids.take(i + 1).drop_last() =~= rids.take(i as int));
        assert(rids.take(i + 1).last() == p.rids@[i as int]@);
        match slide_of_exec(bytes, &rels, p.rids[i].as_str()) {
            Some(s) => {
                let ghost before = slides_view(slides@);
                let ghost sv = shapes_view(s@);
                slides.push(s);
                assert(slides_view(slides@) =~= before.push(sv));
            },
            None => {},
        }
        i += 1;
    }
    assert(rids.take(p.rids.len() as int) =~= rids);
    DeckModel { slides, cx: p.cx, cy: p.cy }
}

} // verus!
