//! Word styles (`word/styles.xml`): document defaults, paragraph and
//! character styles with `basedOn` inheritance, and how a run's formatting
//! and a paragraph's alignment resolve: document defaults, then the
//! paragraph style chain (root first), then the character style chain, then
//! direct formatting.

use vstd::prelude::*;
use crate::chars::{chars_of, float_text, is_float_text, string_of};
use crate::color::{Color, spec_word_color, word_color};
use crate::xml::{
    events_view, xml_tokens,
    XmlEvent, XmlEventView, XmlTag, XmlTagView, get_attr, opt_view, str_eq, tag_attr,
    xml_events,
};

verus! {

/// Paragraph alignment.
#[derive(Clone, Copy, Debug, PartialEq, Eq, Structural)]
pub enum ParaAlign {
    Left,
    Center,
    Right,
    Justify,
}

/// A run's font size: a `w:sz` value (half-points) as written, or a size in
/// whole pixels.
#[derive(Debug)]
pub enum FontSize {
    HalfPoints(String),
    Px(u32),
}

/// Spec value of a [`FontSize`].
pub enum FontSizeView {
    HalfPoints(Seq<char>),
    Px(u32),
}

impl View for FontSize {
    type V = FontSizeView;

    open spec fn view(&self) -> FontSizeView {
        match self {
            FontSize::HalfPoints(s) => FontSizeView::HalfPoints(s@),
            FontSize::Px(n) => FontSizeView::Px(*n),
        }
    }
}

impl FontSize {
    /// A copy of the size.
    pub fn copy(&self) -> (r: FontSize)
        ensures
            r@ == self@,
    {
        match self {
            FontSize::HalfPoints(s) => FontSize::HalfPoints(string_of(chars_of(s.as_str()).as_slice())),
            FontSize::Px(n) => FontSize::Px(*n),
        }
    }
}

/// Run properties; `None` inherits.
#[derive(Debug)]
pub struct RPr {
    pub bold: Option<bool>,
    pub italic: Option<bool>,
    pub underline: Option<bool>,
    pub strike: Option<bool>,
    pub size: Option<FontSize>,
    /// 1 superscript, -1 subscript, 0 baseline.
    pub vert_align: Option<i8>,
    pub color: Option<Color>,
    pub highlight: Option<Color>,
}

/// Spec value of an [`RPr`].
pub struct RPrView {
    pub bold: Option<bool>,
    pub italic: Option<bool>,
    pub underline: Option<bool>,
    pub strike: Option<bool>,
    pub size: Option<FontSizeView>,
    pub vert_align: Option<i8>,
    pub color: Option<Color>,
    pub highlight: Option<Color>,
}

/// Spec value of an optional size.
pub open spec fn osize(o: Option<FontSize>) -> Option<FontSizeView> {
    match o {
        Some(s) => Some(s@),
        None => None,
    }
}

impl View for RPr {
    type V = RPrView;

    open spec fn view(&self) -> RPrView {
        RPrView {
            bold: self.bold,
            italic: self.italic,
            underline: self.underline,
            strike: self.strike,
            size: osize(self.size),
            vert_align: self.vert_align,
            color: self.color,
            highlight: self.highlight,
        }
    }
}

/// Properties that set nothing.
pub open spec fn no_rpr() -> RPrView {
    RPrView {
        bold: None,
        italic: None,
        underline: None,
        strike: None,
        size: None,
        vert_align: None,
        color: None,
        highlight: None,
    }
}

/// `top`'s set properties over `base`.
pub open spec fn overlay(base: RPrView, top: RPrView) -> RPrView {
    RPrView {
        bold: if top.bold is Some {
            top.bold
        } else {
            base.bold
        },
        italic: if top.italic is Some {
            top.italic
        } else {
            base.italic
        },
        underline: if top.underline is Some {
            top.underline
        } else {
            base.underline
        },
        strike: if top.strike is Some {
            top.strike
        } else {
            base.strike
        },
        size: if top.size is Some {
            top.size
        } else {
            base.size
        },
        vert_align: if top.vert_align is Some {
            top.vert_align
        } else {
            base.vert_align
        },
        color: if top.color is Some {
            top.color
        } else {
            base.color
        },
        highlight: if top.highlight is Some {
            top.highlight
        } else {
            base.highlight
        },
    }
}

fn copy_size(o: &Option<FontSize>) -> (r: Option<FontSize>)
    ensures
        osize(r) == osize(*o),
{
    match o {
        Some(s) => Some(s.copy()),
        None => None,
    }
}

impl RPr {
    /// Properties that set nothing.
    pub fn none() -> (r: RPr)
        ensures
            r@ == no_rpr(),
    {
        RPr {
            bold: None,
            italic: None,
            underline: None,
            strike: None,
            size: None,
            vert_align: None,
            color: None,
            highlight: None,
        }
    }

    /// A copy of the properties.
    pub fn copy(&self) -> (r: RPr)
        ensures
            r@ == self@,
    {
        RPr {
            bold: self.bold,
            italic: self.italic,
            underline: self.underline,
            strike: self.strike,
            size: copy_size(&self.size),
            vert_align: self.vert_align,
            color: self.color,
            highlight: self.highlight,
        }
    }

    /// Sets every property that `top` sets.
    pub fn overlay(&mut self, top: &RPr)
        ensures
            final(self)@ == overlay(old(self)@, top@),
    {
        if top.bold.is_some() {
            self.bold = top.bold;
        }
        if top.italic.is_some() {
            self.italic = top.italic;
        }
        if top.underline.is_some() {
            self.underline = top.underline;
        }
        if top.strike.is_some() {
            self.strike = top.strike;
        }
        if top.size.is_some() {
            self.size = copy_size(&top.size);
        }
        if top.vert_align.is_some() {
            self.vert_align = top.vert_align;
        }
        if top.color.is_some() {
            self.color = top.color;
        }
        if top.highlight.is_some() {
            self.highlight = top.highlight;
        }
    }
}

/// Whether a style styles paragraphs or characters.
#[derive(Clone, Copy, Debug, PartialEq, Eq, Structural)]
pub enum StyleKind {
    Paragraph,
    Character,
}

/// One `w:style`.
pub struct Style {
    pub kind: StyleKind,
    pub based_on: Option<String>,
    pub rpr: RPr,
    pub align: Option<ParaAlign>,
}

/// Spec value of a [`Style`].
pub struct StyleView {
    pub kind: StyleKind,
    pub based_on: Option<Seq<char>>,
    pub rpr: RPrView,
    pub align: Option<ParaAlign>,
}

impl View for Style {
    type V = StyleView;

    open spec fn view(&self) -> StyleView {
        StyleView { kind: self.kind, based_on: opt_view(self.based_on), rpr: self.rpr@, align: self.align }
    }
}

/// Styles by id (a later style with an id wins), and the document defaults.
pub struct StyleTable {
    pub styles: Vec<(String, Style)>,
    pub default_rpr: RPr,
    pub default_align: Option<ParaAlign>,
}

/// Spec value of a [`StyleTable`].
pub struct StyleTableView {
    pub styles: Seq<(Seq<char>, StyleView)>,
    pub default_rpr: RPrView,
    pub default_align: Option<ParaAlign>,
}

impl View for StyleTable {
    type V = StyleTableView;

    open spec fn view(&self) -> StyleTableView {
        StyleTableView {
            styles: self.styles@.map_values(|e: (String, Style)| (e.0@, e.1@)),
            default_rpr: self.default_rpr@,
            default_align: self.default_align,
        }
    }
}

/// The style with id `id`: the last one.
pub open spec fn style_of(styles: Seq<(Seq<char>, StyleView)>, id: Seq<char>) -> Option<StyleView>
    decreases styles.len(),
{
    if styles.len() == 0 {
        None
    } else if styles.last().0 == id {
        Some(styles.last().1)
    } else {
        style_of(styles.drop_last(), id)
    }
}

/// The style a style is based on.
pub open spec fn next_id(styles: Seq<(Seq<char>, StyleView)>, id: Seq<char>) -> Option<Seq<char>> {
    match style_of(styles, id) {
        Some(s) => s.based_on,
        None => None,
    }
}

/// The `basedOn` walk from `cur`, after the ids `acc`: it stops at an id
/// without a style or base, or at the first id seen twice.
pub open spec fn chain_run(styles: Seq<(Seq<char>, StyleView)>, cur: Option<Seq<char>>, acc: Seq<Seq<char>>) -> Seq<
    Seq<char>,
>
    decreases styles.len() + 2 - acc.len(),
{
    match cur {
        None => acc,
        Some(id) => if acc.contains(id) || acc.len() > styles.len() + 1 {
            acc
        } else {
            chain_run(styles, next_id(styles, id), acc.push(id))
        },
    }
}

/// Style ids from `start` along `basedOn`: the derived style first, the root
/// last.
pub open spec fn spec_chain(styles: Seq<(Seq<char>, StyleView)>, start: Seq<char>) -> Seq<Seq<char>> {
    chain_run(styles, Some(start), Seq::empty())
}

/// The characters of each string.
pub open spec fn names(v: Seq<String>) -> Seq<Seq<char>> {
    v.map_values(|s: String| s@)
}

/// Ids of the styles.
pub open spec fn ids(styles: Seq<(Seq<char>, StyleView)>) -> Seq<Seq<char>> {
    styles.map_values(|e: (Seq<char>, StyleView)| e.0)
}

pub proof fn lemma_style_of_id(styles: Seq<(Seq<char>, StyleView)>, id: Seq<char>)
    ensures
        style_of(styles, id) is Some ==> ids(styles).contains(id),
    decreases styles.len(),
{
    if styles.len() > 0 {
        if styles.last().0 == id {
            assert(ids(styles)[styles.len() - 1] == id);
        } else {
            lemma_style_of_id(styles.drop_last(), id);
            if style_of(styles, id) is Some {
                let j = choose|j: int| 0 <= j < ids(styles.drop_last()).len() && ids(styles.drop_last())[j] == id;
                assert(ids(styles)[j] == id);
            }
        }
    }
}

pub proof fn lemma_pigeonhole(chain: Seq<Seq<char>>, keys: Seq<Seq<char>>)
    requires
        chain.no_duplicates(),
        forall|k: int| 0 <= k < chain.len() ==> keys.contains(#[trigger] chain[k]),
    ensures
        chain.len() <= keys.len(),
{
    broadcast use vstd::seq_lib::seq_to_set_is_finite;

    chain.unique_seq_to_set();
    keys.lemma_cardinality_of_set();
    assert(chain.to_set().subset_of(keys.to_set())) by {
        assert forall|x: Seq<char>| chain.to_set().contains(x) implies keys.to_set().contains(x) by {
            let k = choose|k: int| 0 <= k < chain.len() && chain[k] == x;
            assert(keys.contains(chain[k]));
        }
    }
    vstd::set_lib::lemma_len_subset(chain.to_set(), keys.to_set());
}

/// Properties of a style id: its style's, else a built-in heading or title
/// style's, else none.
pub open spec fn style_rpr(t: StyleTableView, id: Seq<char>) -> RPrView {
    match style_of(t.styles, id) {
        Some(s) => s.rpr,
        None => match builtin_style(id) {
            Some((r, _)) => r,
            None => no_rpr(),
        },
    }
}

/// Alignment of a style id: its style's, else a built-in style's.
pub open spec fn style_align(t: StyleTableView, id: Seq<char>) -> Option<ParaAlign> {
    match style_of(t.styles, id) {
        Some(s) => s.align,
        None => match builtin_style(id) {
            Some((_, a)) => a,
            None => None,
        },
    }
}

/// Bold with an optional pixel size.
pub open spec fn bold_px(px: Option<u32>) -> RPrView {
    RPrView {
        bold: Some(true),
        size: match px {
            Some(n) => Some(FontSizeView::Px(n)),
            None => None,
        },
        ..no_rpr()
    }
}

/// Built-in styles that documents name without defining: `Title` (bold 28 px,
/// centred) and `Heading1`..`Heading6` (bold; 24, 20, 17, 15 px, then the
/// default size).
pub open spec fn builtin_style(id: Seq<char>) -> Option<(RPrView, Option<ParaAlign>)> {
    if id == "Title"@ {
        Some((bold_px(Some(28)), Some(ParaAlign::Center)))
    } else if id == "Heading1"@ {
        Some((bold_px(Some(24)), None))
    } else if id == "Heading2"@ {
        Some((bold_px(Some(20)), None))
    } else if id == "Heading3"@ {
        Some((bold_px(Some(17)), None))
    } else if id == "Heading4"@ {
        Some((bold_px(Some(15)), None))
    } else if id == "Heading5"@ || id == "Heading6"@ {
        Some((bold_px(None), None))
    } else {
        None
    }
}

/// `acc` with the styles of `ch` laid over it from the last (the root) to
/// the first (the most derived).
pub open spec fn overlay_chain(acc: RPrView, t: StyleTableView, ch: Seq<Seq<char>>) -> RPrView
    decreases ch.len(),
{
    if ch.len() == 0 {
        acc
    } else {
        overlay_chain(overlay(acc, style_rpr(t, ch.last())), t, ch.drop_last())
    }
}

/// A run's resolved properties: defaults, paragraph style chain, character
/// style chain, direct properties, each over the one before.
pub open spec fn resolve_run(t: StyleTableView, p_style: Option<Seq<char>>, r_style: Option<Seq<char>>, direct: RPrView) -> RPrView {
    let a0 = overlay(no_rpr(), t.default_rpr);
    let a1 = match p_style {
        Some(p) => overlay_chain(a0, t, spec_chain(t.styles, p)),
        None => a0,
    };
    let a2 = match r_style {
        Some(r) => overlay_chain(a1, t, spec_chain(t.styles, r)),
        None => a1,
    };
    overlay(a2, direct)
}

/// `acc` replaced by each set alignment of `ch`, from the last to the first.
pub open spec fn align_chain(acc: Option<ParaAlign>, t: StyleTableView, ch: Seq<Seq<char>>) -> Option<ParaAlign>
    decreases ch.len(),
{
    if ch.len() == 0 {
        acc
    } else {
        let a = match style_align(t, ch.last()) {
            Some(x) => Some(x),
            None => acc,
        };
        align_chain(a, t, ch.drop_last())
    }
}

/// A paragraph's alignment: direct, else its style chain's, else the
/// default, else left.
pub open spec fn resolve_align(t: StyleTableView, p_style: Option<Seq<char>>, direct: Option<ParaAlign>) -> ParaAlign {
    let a1 = match p_style {
        Some(p) => align_chain(t.default_align, t, spec_chain(t.styles, p)),
        None => t.default_align,
    };
    match direct {
        Some(a) => a,
        None => match a1 {
            Some(a) => a,
            None => ParaAlign::Left,
        },
    }
}

/// `acc` with a chain laid over it is the chain's tail laid over `acc`, with
/// the chain's first style on top.
pub proof fn lemma_overlay_chain_first(acc: RPrView, t: StyleTableView, ch: Seq<Seq<char>>)
    requires
        ch.len() > 0,
    ensures
        overlay_chain(acc, t, ch) == overlay(overlay_chain(acc, t, ch.skip(1)), style_rpr(t, ch[0])),
    decreases ch.len(),
{
    if ch.len() == 1 {
        assert(ch.drop_last() =~= Seq::<Seq<char>>::empty());
        assert(ch.skip(1) =~= Seq::<Seq<char>>::empty());
    } else {
        let a1 = overlay(acc, style_rpr(t, ch.last()));
        lemma_overlay_chain_first(a1, t, ch.drop_last());
        assert(ch.drop_last().skip(1) =~= ch.skip(1).drop_last());
        assert(ch.skip(1).last() == ch.last());
    }
}

/// The walk keeps the ids it started after, in front.
pub proof fn lemma_chain_run_prefix(styles: Seq<(Seq<char>, StyleView)>, cur: Option<Seq<char>>, acc: Seq<Seq<char>>)
    ensures
        chain_run(styles, cur, acc).len() >= acc.len(),
        chain_run(styles, cur, acc).take(acc.len() as int) == acc,
    decreases styles.len() + 2 - acc.len(),
{
    match cur {
        None => {
            assert(acc.take(acc.len() as int) =~= acc);
        },
        Some(id) => {
            if acc.contains(id) || acc.len() > styles.len() + 1 {
                assert(acc.take(acc.len() as int) =~= acc);
            } else {
                let nx = acc.push(id);
                lemma_chain_run_prefix(styles, next_id(styles, id), nx);
                let r = chain_run(styles, next_id(styles, id), nx);
                assert(r.take(acc.len() as int) =~= r.take(nx.len() as int).take(acc.len() as int));
                assert(nx.take(acc.len() as int) =~= acc);
            }
        },
    }
}

/// A chain starts with the style it starts from.
pub proof fn lemma_chain_starts(styles: Seq<(Seq<char>, StyleView)>, start: Seq<char>)
    ensures
        spec_chain(styles, start).len() > 0,
        spec_chain(styles, start)[0] == start,
{
    let e = Seq::<Seq<char>>::empty();
    assert(!e.contains(start));
    lemma_chain_run_prefix(styles, next_id(styles, start), e.push(start));
    let r = chain_run(styles, next_id(styles, start), e.push(start));
    assert(r.take(1)[0] == r[0]);
}

pub proof fn lemma_overlay_none(x: RPrView)
    ensures
        overlay(x, no_rpr()) == x,
        overlay(no_rpr(), x) == x,
{
}

/// Formatting resolves in layers: with nothing set anywhere but the
/// document defaults a run has the defaults; a run's direct formatting lies
/// over what its styles give, so every property it sets wins; a defined
/// paragraph style's own properties lie over what its `basedOn` ancestors
/// and the defaults give; and a paragraph's direct alignment wins.
pub proof fn law_formatting_layers(
    t: StyleTableView,
    p_style: Option<Seq<char>>,
    r_style: Option<Seq<char>>,
    direct: RPrView,
    para_style: Seq<char>,
    align: ParaAlign,
)
    ensures
        resolve_run(t, None, None, no_rpr()) == t.default_rpr,
        resolve_run(t, p_style, r_style, direct) == overlay(resolve_run(t, p_style, r_style, no_rpr()), direct),
        style_of(t.styles, para_style) matches Some(s) ==> resolve_run(t, Some(para_style), None, no_rpr())
            == overlay(
            overlay_chain(overlay(no_rpr(), t.default_rpr), t, spec_chain(t.styles, para_style).skip(1)),
            s.rpr,
        ),
        resolve_align(t, p_style, Some(align)) == align,
{
    lemma_overlay_none(t.default_rpr);
    let a0 = overlay(no_rpr(), t.default_rpr);
    let a1 = match p_style {
        Some(p) => overlay_chain(a0, t, spec_chain(t.styles, p)),
        None => a0,
    };
    let a2 = match r_style {
        Some(r) => overlay_chain(a1, t, spec_chain(t.styles, r)),
        None => a1,
    };
    lemma_overlay_none(a2);
    lemma_chain_starts(t.styles, para_style);
    lemma_overlay_chain_first(a0, t, spec_chain(t.styles, para_style));
    lemma_overlay_none(overlay_chain(a0, t, spec_chain(t.styles, para_style)));
}

impl StyleTable {
    /// The style with id `id`.
    pub fn get(&self, id: &str) -> (r: Option<&Style>)
        ensures
            match r {
                Some(s) => style_of(self@.styles, id@) == Some(s@),
                None => style_of(self@.styles, id@) is None,
            },
    {
        let ghost v = self@.styles;
        let mut i = self.styles.len();
        assert(v.take(i as int) =~= v);
        while i > 0
            invariant
                i <= self.styles.len(),
                v == self@.styles,
                style_of(v, id@) == style_of(v.take(i as int), id@),
            decreases i,
        {
            assert(v.take(i as int).drop_last() =~= v.take(i - 1));
            assert(v.take(i as int).last() == (self.styles@[i - 1].0@, self.styles@[i - 1].1@));
            if str_eq(self.styles[i - 1].0.as_str(), id) {
                return Some(&self.styles[i - 1].1);
            }
            i -= 1;
        }
        None
    }

    /// Style ids from `start` along `basedOn` (derived first), stopping at a
    /// missing style or base, or at an id seen before.
    pub fn style_chain(&self, start: &str) -> (chain: Vec<String>)
        ensures
            names(chain@) == spec_chain(self@.styles, start@),
            names(chain@).no_duplicates(),
            chain.len() <= self.styles.len() + 1,
    {
        let ghost sv = self@.styles;
        let mut chain: Vec<String> = Vec::new();
        let mut cur: Option<String> = Some(string_of(chars_of(start).as_slice()));
        assert(names(chain@) =~= Seq::<Seq<char>>::empty());
        loop
            invariant
                sv == self@.styles,
                chain_run(sv, opt_view(cur), names(chain@)) == spec_chain(sv, start@),
                names(chain@).no_duplicates(),
                chain.len() <= sv.len() + 1,
                cur is Some ==> forall|k: int| 0 <= k < chain.len() ==> ids(sv).contains(
                    #[trigger] names(chain@)[k],
                ),
            ensures
                names(chain@) == spec_chain(sv, start@),
                names(chain@).no_duplicates(),
                chain.len() <= sv.len() + 1,
            decreases sv.len() + 2 - chain.len(),
        {
            let ghost cv = names(chain@);
            let id = match cur {
                Some(id) => id,
                None => {
                    break;
                },
            };
            let mut seen = false;
            let mut k: usize = 0;
            while k < chain.len()
                invariant
                    k <= chain.len(),
                    cv == names(chain@),
                    seen <==> exists|j: int| 0 <= j < k && cv[j] == id@,
                decreases chain.len() - k,
            {
                assert(cv[k as int] == chain@[k as int]@);
                if str_eq(chain[k].as_str(), id.as_str()) {
                    seen = true;
                }
                k += 1;
            }
            proof {
                lemma_pigeonhole(cv, ids(sv));
                assert(seen <==> cv.contains(id@));
            }
            if seen {
                assert(chain_run(sv, Some(id@), cv) == cv);
                break;
            } else {
                let next = match self.get(id.as_str()) {
                    Some(s) => match &s.based_on {
                        Some(b) => Some(string_of(chars_of(b.as_str()).as_slice())),
                        None => None,
                    },
                    None => None,
                };
                proof {
                    lemma_style_of_id(sv, id@);
                }
                let ghost idv = id@;
                chain.push(id);
                assert(names(chain@) =~= cv.push(idv));
                cur = next;
                assert(opt_view(cur) == next_id(sv, idv));
                assert forall|a: int, b: int| 0 <= a < b < cv.push(idv).len() implies cv.push(idv)[a]
                    != cv.push(idv)[b] by {
                    if b == cv.len() {
                        assert(cv[a] == cv.push(idv)[a]);
                    }
                }
            }
        }
        chain
    }

    /// Properties of the style `id` (built-in heading styles when it is not
    /// defined).
    pub fn style_rpr(&self, id: &str) -> (r: RPr)
        ensures
            r@ == style_rpr(self@, id@),
    {
        match self.get(id) {
            Some(s) => s.rpr.copy(),
            None => match builtin_style_exec(id) {
                Some((r, _)) => r,
                None => RPr::none(),
            },
        }
    }

    /// Alignment of the style `id`.
    pub fn style_align(&self, id: &str) -> (r: Option<ParaAlign>)
        ensures
            r == style_align(self@, id@),
    {
        match self.get(id) {
            Some(s) => s.align,
            None => match builtin_style_exec(id) {
                Some((_, a)) => a,
                None => None,
            },
        }
    }

    fn overlay_chain_exec(&self, acc: &mut RPr, ch: &Vec<String>)
        ensures
            final(acc)@ == overlay_chain(old(acc)@, self@, names(ch@)),
    {
        let ghost cv = names(ch@);
        let mut i = ch.len();
        assert(cv.take(i as int) =~= cv);
        while i > 0
            invariant
                i <= ch.len(),
                cv == names(ch@),
                overlay_chain(old(acc)@, self@, cv) == overlay_chain(acc@, self@, cv.take(i as int)),
            decreases i,
        {
            assert(cv.take(i as int).drop_last() =~= cv.take(i - 1));
            assert(cv.take(i as int).last() == ch@[i - 1]@);
            let r = self.style_rpr(ch[i - 1].as_str());
            acc.overlay(&r);
            i -= 1;
        }
        assert(cv.take(0) =~= Seq::<Seq<char>>::empty());
    }

    /// A run's resolved properties: defaults, then the paragraph style chain
    /// (root first), then the character style chain, then its direct ones.
    pub fn resolve_run_rpr(&self, p_style: Option<&str>, r_style: Option<&str>, direct: &RPr) -> (r: RPr)
        ensures
            r@ == resolve_run(
                self@,
                match p_style {
                    Some(p) => Some(p@),
                    None => None,
                },
                match r_style {
                    Some(s) => Some(s@),
                    None => None,
                },
                direct@,
            ),
    {
        let mut acc = RPr::none();
        acc.overlay(&self.default_rpr);
        match p_style {
            Some(ps) => {
                let ch = self.style_chain(ps);
                self.overlay_chain_exec(&mut acc, &ch);
            },
            None => {},
        }
        match r_style {
            Some(cs) => {
                let ch = self.style_chain(cs);
                self.overlay_chain_exec(&mut acc, &ch);
            },
            None => {},
        }
        acc.overlay(direct);
        acc
    }

    /// A paragraph's alignment: its direct one, else its style chain's (the
    /// most derived that sets one), else the default, else left.
    pub fn resolve_para_align(&self, p_style: Option<&str>, direct: Option<ParaAlign>) -> (a: ParaAlign)
        ensures
            a == resolve_align(
                self@,
                match p_style {
                    Some(p) => Some(p@),
                    None => None,
                },
                direct,
            ),
    {
        let mut acc = self.default_align;
        match p_style {
            Some(ps) => {
                let ch = self.style_chain(ps);
                let ghost cv = names(ch@);
                let mut i = ch.len();
                assert(cv.take(i as int) =~= cv);
                while i > 0
                    invariant
                        i <= ch.len(),
                        cv == names(ch@),
                        align_chain(self@.default_align, self@, cv) == align_chain(acc, self@, cv.take(i as int)),
                    decreases i,
                {
                    assert(cv.take(i as int).drop_last() =~= cv.take(i - 1));
                    assert(cv.take(i as int).last() == ch@[i - 1]@);
                    match self.style_align(ch[i - 1].as_str()) {
                        Some(a) => {
                            acc = Some(a);
                        },
                        None => {},
                    }
                    i -= 1;
                }
                assert(cv.take(0) =~= Seq::<Seq<char>>::empty());
            },
            None => {},
        }
        match direct {
            Some(a) => a,
            None => match acc {
                Some(a) => a,
                None => ParaAlign::Left,
            },
        }
    }
}

fn bold_px_exec(px: Option<u32>) -> (r: RPr)
    ensures
        r@ == bold_px(px),
{
    RPr {
        bold: Some(true),
        italic: None,
        underline: None,
        strike: None,
        size: match px {
            Some(n) => Some(FontSize::Px(n)),
            None => None,
        },
        vert_align: None,
        color: None,
        highlight: None,
    }
}

/// The built-in style for `id`, when it is one.
pub fn builtin_style_exec(id: &str) -> (r: Option<(RPr, Option<ParaAlign>)>)
    ensures
        match (r, builtin_style(id@)) {
            (Some((p, a)), Some((sp, sa))) => p@ == sp && a == sa,
            (None, None) => true,
            _ => false,
        },
{
    if str_eq(id, "Title") {
        Some((bold_px_exec(Some(28)), Some(ParaAlign::Center)))
    } else if str_eq(id, "Heading1") {
        Some((bold_px_exec(Some(24)), None))
    } else if str_eq(id, "Heading2") {
        Some((bold_px_exec(Some(20)), None))
    } else if str_eq(id, "Heading3") {
        Some((bold_px_exec(Some(17)), None))
    } else if str_eq(id, "Heading4") {
        Some((bold_px_exec(Some(15)), None))
    } else if str_eq(id, "Heading5") || str_eq(id, "Heading6") {
        Some((bold_px_exec(None), None))
    } else {
        None
    }
}


// ------------------------------------------------------------------------
// Reading styles.xml
// ------------------------------------------------------------------------

/// Scan state over `styles.xml`: the table so far, whether the scan is
/// inside `w:docDefaults`, and the open style with its id.
pub struct StylesScanView {
    pub table: StyleTableView,
    pub in_defaults: bool,
    pub cur_id: Option<Seq<char>>,
    pub cur: Option<StyleView>,
}

/// The empty table.
pub open spec fn empty_table() -> StyleTableView {
    StyleTableView { styles: Seq::empty(), default_rpr: no_rpr(), default_align: None }
}

/// The state before the first token.
pub open spec fn styles_scan_start() -> StylesScanView {
    StylesScanView { table: empty_table(), in_defaults: false, cur_id: None, cur: None }
}

/// `w:b`: on unless its `w:val` is `false`, `0` or `off`.
pub open spec fn bold_val(t: XmlTagView) -> bool {
    match tag_attr(t, "w:val"@) {
        Some(v) => !(v == "false"@ || v == "0"@ || v == "off"@),
        None => true,
    }
}

/// `w:jc` value as an alignment (unknown values are left).
pub open spec fn jc_align(v: Option<Seq<char>>) -> ParaAlign {
    match v {
        Some(x) => if x == "center"@ {
            ParaAlign::Center
        } else if x == "right"@ || x == "end"@ {
            ParaAlign::Right
        } else if x == "both"@ || x == "distribute"@ {
            ParaAlign::Justify
        } else {
            ParaAlign::Left
        },
        None => ParaAlign::Left,
    }
}

/// The run properties that a `w:b`, `w:sz` (with a numeric value) or
/// `w:color` tag sets.
pub open spec fn tag_rpr(t: XmlTagView) -> Option<RPrView> {
    let n = t.name;
    if n == "w:b"@ {
        Some(RPrView { bold: Some(bold_val(t)), ..no_rpr() })
    } else if n == "w:sz"@ {
        match tag_attr(t, "w:val"@) {
            Some(v) => if float_text(v) {
                Some(RPrView { size: Some(FontSizeView::HalfPoints(v)), ..no_rpr() })
            } else {
                None
            },
            None => None,
        }
    } else if n == "w:color"@ {
        match tag_attr(t, "w:val"@) {
            Some(v) => Some(RPrView { color: Some(spec_word_color(vstd::utf8::encode_utf8(v))), ..no_rpr() }),
            None => None,
        }
    } else {
        None
    }
}

/// `top` laid over the document defaults inside `w:docDefaults`, else over
/// the open style's properties, else nothing changes.
pub open spec fn with_rpr(st: StylesScanView, top: RPrView) -> StylesScanView {
    if st.in_defaults {
        StylesScanView {
            table: StyleTableView { default_rpr: overlay(st.table.default_rpr, top), ..st.table },
            ..st
        }
    } else {
        match st.cur {
            Some(s) => StylesScanView { cur: Some(StyleView { rpr: overlay(s.rpr, top), ..s }), ..st },
            None => st,
        }
    }
}

/// A start or empty tag of `styles.xml`.
pub open spec fn styles_xml_open(st: StylesScanView, t: XmlTagView) -> StylesScanView {
    let n = t.name;
    if n == "w:docDefaults"@ {
        StylesScanView { in_defaults: true, ..st }
    } else if n == "w:style"@ {
        let kind = if tag_attr(t, "w:type"@) == Some("character"@) {
            StyleKind::Character
        } else {
            StyleKind::Paragraph
        };
        StylesScanView {
            cur_id: tag_attr(t, "w:styleId"@),
            cur: Some(StyleView { kind, based_on: None, rpr: no_rpr(), align: None }),
            ..st
        }
    } else if n == "w:basedOn"@ {
        match st.cur {
            Some(s) => StylesScanView { cur: Some(StyleView { based_on: tag_attr(t, "w:val"@), ..s }), ..st },
            None => st,
        }
    } else if n == "w:jc"@ {
        let a = jc_align(tag_attr(t, "w:val"@));
        if st.in_defaults {
            StylesScanView { table: StyleTableView { default_align: Some(a), ..st.table }, ..st }
        } else {
            match st.cur {
                Some(s) => StylesScanView { cur: Some(StyleView { align: Some(a), ..s }), ..st },
                None => st,
            }
        }
    } else {
        match tag_rpr(t) {
            Some(top) => with_rpr(st, top),
            None => st,
        }
    }
}

/// An end tag of `styles.xml`: a closed `w:style` with an id joins the table.
pub open spec fn styles_xml_close(st: StylesScanView, n: Seq<char>) -> StylesScanView {
    if n == "w:docDefaults"@ {
        StylesScanView { in_defaults: false, ..st }
    } else if n == "w:style"@ {
        StylesScanView {
            table: match (st.cur_id, st.cur) {
                (Some(id), Some(s)) => StyleTableView { styles: st.table.styles.push((id, s)), ..st.table },
                _ => st.table,
            },
            cur_id: None,
            cur: None,
            ..st
        }
    } else {
        st
    }
}

/// One token of `styles.xml`.
pub open spec fn styles_xml_step(st: StylesScanView, ev: XmlEventView) -> StylesScanView {
    match ev {
        XmlEventView::Start(t) | XmlEventView::Empty(t) => styles_xml_open(st, t),
        XmlEventView::End(n, _) => styles_xml_close(st, n),
        _ => st,
    }
}

/// The scan over a token sequence.
pub open spec fn styles_xml_fold(evs: Seq<XmlEventView>) -> StylesScanView
    decreases evs.len(),
{
    if evs.len() == 0 {
        styles_scan_start()
    } else {
        styles_xml_step(styles_xml_fold(evs.drop_last()), evs.last())
    }
}

/// The style table that `styles.xml` with tokens `evs` describes.
pub open spec fn spec_styles_xml(evs: Seq<XmlEventView>) -> StyleTableView {
    styles_xml_fold(evs).table
}

struct StylesScan {
    table: StyleTable,
    in_defaults: bool,
    cur_id: Option<String>,
    cur: Option<Style>,
}

impl View for StylesScan {
    type V = StylesScanView;

    closed spec fn view(&self) -> StylesScanView {
        StylesScanView {
            table: self.table@,
            in_defaults: self.in_defaults,
            cur_id: opt_view(self.cur_id),
            cur: match self.cur {
                Some(s) => Some(s@),
                None => None,
            },
        }
    }
}

pub fn attr_is(t: &XmlTag, key: &str, want: &str) -> (b: bool)
    ensures
        b == (tag_attr(t@, key@) == Some(want@)),
{
    match get_attr(t, key) {
        Some(v) => str_eq(v.as_str(), want),
        None => false,
    }
}

pub fn bold_val_exec(t: &XmlTag) -> (b: bool)
    ensures
        b == bold_val(t@),
{
    match get_attr(t, "w:val") {
        Some(v) => {
            let s = v.as_str();
            !(str_eq(s, "false") || str_eq(s, "0") || str_eq(s, "off"))
        },
        None => true,
    }
}

pub fn jc_align_exec(v: Option<String>) -> (a: ParaAlign)
    ensures
        a == jc_align(opt_view(v)),
{
    match v {
        Some(x) => {
            let s = x.as_str();
            if str_eq(s, "center") {
                ParaAlign::Center
            } else if str_eq(s, "right") || str_eq(s, "end") {
                ParaAlign::Right
            } else if str_eq(s, "both") || str_eq(s, "distribute") {
                ParaAlign::Justify
            } else {
                ParaAlign::Left
            }
        },
        None => ParaAlign::Left,
    }
}

fn tag_rpr_exec(t: &XmlTag) -> (r: Option<RPr>)
    ensures
        match r {
            Some(p) => tag_rpr(t@) == Some(p@),
            None => tag_rpr(t@) is None,
        },
{
    let n = t.name.as_str();
    if str_eq(n, "w:b") {
        let mut p = RPr::none();
        p.bold = Some(bold_val_exec(t));
        Some(p)
    } else if str_eq(n, "w:sz") {
        match get_attr(t, "w:val") {
            Some(v) => {
                if is_float_text(chars_of(v.as_str()).as_slice()) {
                    let mut p = RPr::none();
                    p.size = Some(FontSize::HalfPoints(v));
                    Some(p)
                } else {
                    None
                }
            },
            None => None,
        }
    } else if str_eq(n, "w:color") {
        match get_attr(t, "w:val") {
            Some(v) => {
                let mut p = RPr::none();
                p.color = Some(word_color(v.as_str()));
                Some(p)
            },
            None => None,
        }
    } else {
        None
    }
}

fn styles_xml_open_exec(st: &mut StylesScan, t: &XmlTag)
    ensures
        final(st)@ == styles_xml_open(old(st)@, t@),
{
    let n = t.name.as_str();
    if str_eq(n, "w:docDefaults") {
        st.in_defaults = true;
    } else if str_eq(n, "w:style") {
        let kind = if attr_is(t, "w:type", "character") {
            StyleKind::Character
        } else {
            StyleKind::Paragraph
        };
        st.cur_id = get_attr(t, "w:styleId");
        st.cur = Some(Style { kind, based_on: None, rpr: RPr::none(), align: None });
    } else if str_eq(n, "w:basedOn") {
        let b = get_attr(t, "w:val");
        match &mut st.cur {
            Some(s) => {
                s.based_on = b;
            },
            None => {},
        }
    } else if str_eq(n, "w:jc") {
        let a = jc_align_exec(get_attr(t, "w:val"));
        if st.in_defaults {
            st.table.default_align = Some(a);
        } else {
            match &mut st.cur {
                Some(s) => {
                    s.align = Some(a);
                },
                None => {},
            }
        }
    } else {
        match tag_rpr_exec(t) {
            Some(p) => {
                if st.in_defaults {
                    st.table.default_rpr.overlay(&p);
                } else {
                    match &mut st.cur {
                        Some(s) => {
                            s.rpr.overlay(&p);
                        },
                        None => {},
                    }
                }
            },
            None => {},
        }
    }
}

fn styles_xml_close_exec(st: &mut StylesScan, n: &String)
    ensures
        final(st)@ == styles_xml_close(old(st)@, n@),
{
    if str_eq(n.as_str(), "w:docDefaults") {
        st.in_defaults = false;
    } else if str_eq(n.as_str(), "w:style") {
        let id = st.cur_id.take();
        let cur = st.cur.take();
        match (id, cur) {
            (Some(i), Some(s)) => {
                let ghost before = st.table@.styles;
                let ghost e = (i@, s@);
                st.table.styles.push((i, s));
                assert(st.table@.styles =~= before.push(e));
            },
            _ => {},
        }
    }
}

/// The style table of a `styles.xml` text: `w:docDefaults` properties and
/// alignment, and each `w:style` with an id (its kind, `w:basedOn`, and the
/// `w:b`, `w:sz`, `w:color` and `w:jc` inside it).
pub fn parse_styles_xml(xml: &str) -> (t: StyleTable)
    ensures
        t@ == spec_styles_xml(xml_events(xml@)),
{
    let toks = xml_tokens(xml);
    parse_styles_events(toks.as_slice())
}

/// What [`parse_styles_xml`] computes, from the tokens `toks` of the text.
pub fn parse_styles_events(toks: &[XmlEvent]) -> (t: StyleTable)
    ensures
        t@ == spec_styles_xml(events_view(toks@)),
{
    let ghost evs = events_view(toks@);
    let mut i: usize = 0;
    let mut st = StylesScan {
        table: StyleTable { styles: Vec::new(), default_rpr: RPr::none(), default_align: None },
        in_defaults: false,
        cur_id: None,
        cur: None,
    };
    assert(st.table@.styles =~= Seq::<(Seq<char>, StyleView)>::empty());
    assert(st@ == styles_scan_start());
    while i < toks.len()
        invariant
            i <= toks.len(),
            st@ == styles_xml_fold(evs.take(i as int)),
            evs == events_view(toks@),
        decreases toks.len() - i,
    {
        let ghost k = i;
        assert(evs[k as int] == toks@[k as int]@);
        match &toks[i] {
            XmlEvent::Start(t) => {
                styles_xml_open_exec(&mut st, t);
                assert(evs.take((k + 1) as int).drop_last() =~= evs.take(k as int));
            },
            XmlEvent::Empty(t) => {
                styles_xml_open_exec(&mut st, t);
                assert(evs.take((k + 1) as int).drop_last() =~= evs.take(k as int));
            },
            XmlEvent::End(n, _) => {
                styles_xml_close_exec(&mut st, n);
                assert(evs.take((k + 1) as int).drop_last() =~= evs.take(k as int));
            },
            _ => {
                assert(evs.take((k + 1) as int).drop_last() =~= evs.take(k as int));
            },
        }
        i += 1;
    }
    assert(evs.take(toks.len() as int) =~= evs);
    st.table
}

} // verus!
