//! Fonts and shaping: font faces held as bytes, `rustybuzz` shaping and cmap
//! coverage behind trusted items, and the verified choice of a font for each
//! character (declared family, then the script's default, then any font that
//! covers it).

use vstd::prelude::*;
use std::collections::HashSet;
use crate::chars::{chars_of, is_whitespace, is_ws, starts_with, starts_with_at};
use crate::script::{is_cjk, is_symbol, spec_is_cjk, spec_is_symbol};

verus! {

broadcast use vstd::std_specs::hash::group_hash_axioms;

/// One shaped glyph. Advances and offsets are in font design units.
#[derive(Clone, Copy, Debug, PartialEq, Eq, Structural)]
pub struct ShapedGlyph {
    pub glyph_id: u32,
    /// Byte index into the shaped string of the cluster this glyph belongs to.
    pub cluster: u32,
    pub x_advance: i32,
    pub y_advance: i32,
    pub x_offset: i32,
    pub y_offset: i32,
}

/// A run of text shaped in one font.
pub struct ShapedRun {
    pub glyphs: Vec<ShapedGlyph>,
    pub units_per_em: i32,
}

/// Units per em that `rustybuzz::Face::from_slice(bytes, 0)` reports, or
/// `None` when the bytes do not parse as a face.
pub uninterp spec fn face_units_per_em(bytes: Seq<u8>) -> Option<i32>;

/// Each cmap subtable of the face in `bytes`, in table order: whether it is a
/// Unicode subtable (`is_unicode`), and the code points it maps, in the order
/// `codepoints` enumerates them. Empty when the face or its cmap does not
/// parse.
pub uninterp spec fn face_cmap_subtables(bytes: Seq<u8>) -> Seq<(bool, Seq<u32>)>;

/// The code points of the Unicode subtables among `subs`.
pub open spec fn unicode_points(subs: Seq<(bool, Seq<u32>)>) -> Set<u32>
    decreases subs.len(),
{
    if subs.len() == 0 {
        Set::empty()
    } else if subs.last().0 {
        unicode_points(subs.drop_last()) + subs.last().1.to_set()
    } else {
        unicode_points(subs.drop_last())
    }
}

/// The code points of the Unicode cmap subtables of the face in `bytes`.
pub open spec fn face_coverage(bytes: Seq<u8>) -> Set<u32> {
    unicode_points(face_cmap_subtables(bytes))
}

/// Spec values of cmap subtables.
pub open spec fn subtables_view(v: Seq<(bool, Vec<u32>)>) -> Seq<(bool, Seq<u32>)> {
    v.map_values(|p: (bool, Vec<u32>)| (p.0, p.1@))
}

/// Appends one code point (what the cmap enumeration hands over).
fn push_point(v: &mut Vec<u32>, cp: u32)
    ensures
        final(v)@ == old(v)@.push(cp),
{
    v.push(cp);
}

/// Each cmap subtable of the face (`rustybuzz::Face::from_slice`, then
/// `tables().cmap`): its `is_unicode` flag and the code points that
/// `codepoints` enumerates. Empty when the face or its cmap does not parse.
#[verifier::external_body]
fn cmap_subtables(bytes: &[u8]) -> (r: Vec<(bool, Vec<u32>)>)
    ensures
        subtables_view(r@) == face_cmap_subtables(bytes@),
{
    let mut out = Vec::new();
    if let Some(face) = rustybuzz::Face::from_slice(bytes, 0) {
        if let Some(cmap) = face.tables().cmap {
            for sub in cmap.subtables {
                let mut points = Vec::new();
                sub.codepoints(|cp: u32| push_point(&mut points, cp));
                out.push((sub.is_unicode(), points));
            }
        }
    }
    out
}

/// Whether a Unicode cmap subtable of the face in `bytes` maps `ch` to a glyph.
pub uninterp spec fn face_maps_char(bytes: Seq<u8>, ch: char) -> bool;

/// The glyphs `rustybuzz::shape` makes of `text` with the face in `bytes`
/// (segment properties guessed from the text, no features), or `None` when
/// the bytes do not parse as a face.
pub uninterp spec fn face_shaping(bytes: Seq<u8>, text: Seq<char>) -> Option<Seq<ShapedGlyph>>;

/// `str::to_lowercase` of `s`.
pub uninterp spec fn unicode_lower(s: Seq<char>) -> Seq<char>;

/// `rustybuzz::Face::from_slice(bytes, 0)` and its `units_per_em`.
#[verifier::external_body]
fn face_units(bytes: &[u8]) -> (r: Option<i32>)
    ensures
        r == face_units_per_em(bytes@),
{
    rustybuzz::Face::from_slice(bytes, 0).map(|f| f.units_per_em())
}

/// Shapes `text` with `rustybuzz::shape` after `UnicodeBuffer::push_str` and
/// `guess_segment_properties`, copying each glyph's id, cluster and position;
/// `None` when the face does not parse. The face's units per em come back
/// with the glyphs.
#[verifier::external_body]
fn shape_face(bytes: &[u8], text: &str) -> (r: Option<(Vec<ShapedGlyph>, i32)>)
    ensures
        match r {
            Some((g, u)) => face_shaping(bytes@, text@) == Some(g@) && face_units_per_em(bytes@) == Some(u),
            None => face_shaping(bytes@, text@) is None && face_units_per_em(bytes@) is None,
        },
{
    let face = rustybuzz::Face::from_slice(bytes, 0)?;
    let mut buffer = rustybuzz::UnicodeBuffer::new();
    buffer.push_str(text);
    buffer.guess_segment_properties();
    let output = rustybuzz::shape(&face, &[], buffer);
    let glyphs = output.glyph_infos().iter().zip(output.glyph_positions().iter()).map(|(i, p)| ShapedGlyph {
        glyph_id: i.glyph_id,
        cluster: i.cluster,
        x_advance: p.x_advance,
        y_advance: p.y_advance,
        x_offset: p.x_offset,
        y_offset: p.y_offset,
    }).collect();
    Some((glyphs, face.units_per_em()))
}

/// `str::to_lowercase`.
#[verifier::external_body]
fn lowercase(s: &str) -> (r: String)
    ensures
        r@ == unicode_lower(s@),
{
    s.to_lowercase()
}

/// Units per em of a font: the face's, or 1000 when it does not parse.
pub open spec fn units_or_default(bytes: Seq<u8>) -> i32 {
    match face_units_per_em(bytes) {
        Some(u) => u,
        None => 1000,
    }
}

/// The raw bytes of one font face.
pub struct FontData {
    bytes: Vec<u8>,
    units_per_em: i32,
}

impl View for FontData {
    type V = Seq<u8>;

    closed spec fn view(&self) -> Seq<u8> {
        self.bytes@
    }
}

impl FontData {
    #[verifier::type_invariant]
    closed spec fn units_match(self) -> bool {
        self.units_per_em == units_or_default(self.bytes@)
    }

    /// Holds `bytes`, reading the face's units per em once.
    pub fn new(bytes: Vec<u8>) -> (f: FontData)
        ensures
            f@ == bytes@,
    {
        let u = match face_units(bytes.as_slice()) {
            Some(u) => u,
            None => 1000,
        };
        FontData { bytes, units_per_em: u }
    }

    /// The font's bytes.
    pub fn bytes(&self) -> (b: &[u8])
        ensures
            b@ == self@,
    {
        self.bytes.as_slice()
    }

    /// Font design units per em (1000 when the face does not parse).
    pub fn units_per_em(&self) -> (u: i32)
        ensures
            u == units_or_default(self@),
    {
        proof {
            use_type_invariant(self);
        }
        self.units_per_em
    }

    /// Whether the face's cmap maps `ch` to a glyph
    /// (`rustybuzz::Face::from_slice` and `glyph_index`).
    #[verifier::external_body]
    pub fn has_char(&self, ch: char) -> (b: bool)
        ensures
            b == face_maps_char(self@, ch),
    {
        rustybuzz::Face::from_slice(&self.bytes, 0).and_then(|f| f.glyph_index(ch)).is_some()
    }

    /// The code points the face covers: every code point of each Unicode
    /// cmap subtable, none when the face or its cmap does not parse.
    pub fn coverage(&self) -> (s: HashSet<u32>)
        ensures
            s@ == face_coverage(self@),
    {
        let subs = cmap_subtables(self.bytes.as_slice());
        let ghost sv = subtables_view(subs@);
        let mut set: HashSet<u32> = HashSet::new();
        let mut k: usize = 0;
        while k < subs.len()
            invariant
                k <= subs.len(),
                sv == subtables_view(subs@),
                sv == face_cmap_subtables(self@),
                set@ == unicode_points(sv.take(k as int)),
            decreases subs.len() - k,
        {
            let ghost before = set@;
            assert(sv.take((k + 1) as int).drop_last() =~= sv.take(k as int));
            let (uni, points) = &subs[k];
            if *uni {
                let mut j: usize = 0;
                while j < points.len()
                    invariant
                        j <= points.len(),
                        set@ == before + points@.take(j as int).to_set(),
                    decreases points.len() - j,
                {
                    assert(points@.take((j + 1) as int) =~= points@.take(j as int).push(points@[j as int]));
                    proof {
                        lemma_push_to_set(points@.take(j as int), points@[j as int]);
                    }
                    set.insert(points[j]);
                    assert(set@ =~= before + points@.take((j + 1) as int).to_set());
                    j += 1;
                }
                assert(points@.take(points.len() as int) =~= points@);
            }
            assert(set@ =~= unicode_points(sv.take((k + 1) as int)));
            k += 1;
        }
        assert(sv.take(subs.len() as int) =~= sv);
        set
    }
}

/// The set of a sequence grows by the pushed element.
proof fn lemma_push_to_set(s: Seq<u32>, x: u32)
    ensures
        s.push(x).to_set() == s.to_set().insert(x),
{
    assert forall|a: u32| s.push(x).to_set().contains(a) <==> s.to_set().insert(x).contains(a) by {
        if s.push(x).contains(a) && a != x {
            let i = choose|i: int| 0 <= i < s.push(x).len() && s.push(x)[i] == a;
            assert(s[i] == a);
        }
        if s.contains(a) {
            let i = choose|i: int| 0 <= i < s.len() && s[i] == a;
            assert(s.push(x)[i] == a);
        }
        if a == x {
            assert(s.push(x)[s.len() as int] == x);
        }
    }
    assert(s.push(x).to_set() =~= s.to_set().insert(x));
}

/// What [`shape`] returns for `text` in a font with bytes `bytes`.
pub open spec fn shaped_glyphs(bytes: Seq<u8>, text: Seq<char>) -> Seq<ShapedGlyph> {
    match face_shaping(bytes, text) {
        Some(g) => g,
        None => Seq::empty(),
    }
}

/// Shapes `text` with `font` (direction, script and language guessed from
/// the text). No glyphs when the face does not parse.
pub fn shape(font: &FontData, text: &str) -> (r: ShapedRun)
    ensures
        r.glyphs@ == shaped_glyphs(font@, text@),
        r.units_per_em == units_or_default(font@),
        face_units_per_em(font@) is None ==> r.glyphs@.len() == 0,
{
    proof {
        use_type_invariant(font);
    }
    match shape_face(font.bytes.as_slice(), text) {
        Some((glyphs, u)) => ShapedRun { glyphs, units_per_em: u },
        None => ShapedRun { glyphs: Vec::new(), units_per_em: font.units_per_em },
    }
}

// ------------------------------------------------------------------------
// Choosing a font per character
// ------------------------------------------------------------------------

/// Whether `w` occurs in `s`.
pub open spec fn has_sub(s: Seq<char>, w: Seq<char>) -> bool {
    exists|i: int| 0 <= i <= s.len() && #[trigger] starts_with(s.skip(i), w)
}

pub fn contains_sub(s: &[char], w: &str) -> (b: bool)
    ensures
        b == has_sub(s@, w@),
{
    let wc = chars_of(w);
    let mut i: usize = 0;
    while i < s.len()
        invariant
            i <= s.len(),
            wc@ == w@,
            forall|j: int| 0 <= j < i ==> !starts_with(#[trigger] s@.skip(j), w@),
        decreases s.len() - i,
    {
        if starts_with_at(s, i, wc.as_slice()) {
            return true;
        }
        i += 1;
    }
    starts_with_at(s, i, wc.as_slice())
}

/// A lower-cased family name that marks a symbol font.
pub open spec fn symbolic(low: Seq<char>) -> bool {
    has_sub(low, "symbol"@) || has_sub(low, "wingding"@) || has_sub(low, "dingbat"@) || has_sub(
        low,
        "webding"@,
    )
}

/// Index of the first entry named `n`.
pub open spec fn name_index(names: Seq<(Seq<char>, usize)>, n: Seq<char>) -> Option<usize>
    decreases names.len(),
{
    if names.len() == 0 {
        None
    } else if names[0].0 == n {
        Some(names[0].1)
    } else {
        name_index(names.drop_first(), n)
    }
}

/// Lower-cased names of the extra fonts with their indexes (the default font
/// is index 0); a name already present keeps its first font.
pub open spec fn names_of(extras: Seq<Seq<char>>) -> Seq<(Seq<char>, usize)>
    decreases extras.len(),
{
    if extras.len() == 0 {
        Seq::empty()
    } else {
        let prev = names_of(extras.drop_last());
        let low = unicode_lower(extras.last());
        if name_index(prev, low) is Some {
            prev
        } else {
            prev.push((low, extras.len() as usize))
        }
    }
}

/// The index of the last extra font whose name marks a symbol font, or 0.
pub open spec fn symbol_of(extras: Seq<Seq<char>>) -> usize
    decreases extras.len(),
{
    if extras.len() == 0 {
        0
    } else if symbolic(unicode_lower(extras.last())) {
        extras.len() as usize
    } else {
        symbol_of(extras.drop_last())
    }
}

/// Spec value of [`Fonts`]: the faces' bytes (index 0 is the default), the
/// family names with their indexes, and the symbol font's index.
pub struct FontsView {
    pub faces: Seq<Seq<u8>>,
    pub names: Seq<(Seq<char>, usize)>,
    pub symbol: usize,
}

/// Whether font `i` can draw `ch`: white space always, else when its cmap
/// covers the code point.
pub open spec fn covers(v: FontsView, i: usize, ch: char) -> bool {
    is_ws(ch) || (i < v.faces.len() && face_coverage(v.faces[i as int]).contains(ch as u32))
}

/// The first font from `i` on that covers `ch`.
pub open spec fn first_cover(v: FontsView, ch: char, i: int) -> Option<usize>
    decreases v.faces.len() - i,
{
    if i < 0 || i >= v.faces.len() {
        None
    } else if covers(v, i as usize, ch) {
        Some(i as usize)
    } else {
        first_cover(v, ch, i + 1)
    }
}

/// The font for `ch` in a run whose Latin family is `ascii` and East Asian
/// family is `ea`: the family that applies to the character's script (the
/// other one when it is absent), if that font covers the character; else
/// the symbol font for symbols and font 0 for everything else, if it covers
/// it; else the first font that covers it; else that fallback.
pub open spec fn pick_font(v: FontsView, ascii: Option<Seq<char>>, ea: Option<Seq<char>>, ch: char) -> usize {
    let declared = if spec_is_cjk(ch) {
        if ea is Some {
            ea
        } else {
            ascii
        }
    } else {
        if ascii is Some {
            ascii
        } else {
            ea
        }
    };
    let named = match declared {
        Some(n) => match name_index(v.names, unicode_lower(n)) {
            Some(i) => if covers(v, i, ch) {
                Some(i)
            } else {
                None
            },
            None => None,
        },
        None => None,
    };
    let fb: usize = if spec_is_symbol(ch) {
        v.symbol
    } else {
        0
    };
    match named {
        Some(i) => i,
        None => if covers(v, fb, ch) {
            fb
        } else {
            match first_cover(v, ch, 0) {
                Some(i) => i,
                None => fb,
            }
        },
    }
}

/// Whether every index a view holds names one of its fonts.
pub open spec fn fonts_wf(v: FontsView) -> bool {
    &&& v.faces.len() >= 1
    &&& v.symbol < v.faces.len()
    &&& forall|k: int| 0 <= k < v.names.len() ==> #[trigger] v.names[k].1 < v.faces.len()
}

/// Loaded fonts with selection by declared family and script. Index 0 is the
/// default font; the extra fonts follow in order.
pub struct Fonts {
    list: Vec<FontData>,
    cover: Vec<HashSet<u32>>,
    by_name: Vec<(String, usize)>,
    symbol: usize,
}

/// Spec values of a list of fonts.
pub open spec fn faces_of(list: Seq<FontData>) -> Seq<Seq<u8>> {
    list.map_values(|f: FontData| f@)
}

/// Spec values of the name list.
pub open spec fn names_view(v: Seq<(String, usize)>) -> Seq<(Seq<char>, usize)> {
    v.map_values(|e: (String, usize)| (e.0@, e.1))
}

impl View for Fonts {
    type V = FontsView;

    closed spec fn view(&self) -> FontsView {
        FontsView { faces: faces_of(self.list@), names: names_view(self.by_name@), symbol: self.symbol }
    }
}

/// The fonts [`Fonts::new`] builds from a default font and named extra fonts.
pub open spec fn spec_fonts(default: Seq<u8>, extras: Seq<(Seq<char>, Seq<u8>)>) -> FontsView {
    let names = extras.map_values(|e: (Seq<char>, Seq<u8>)| e.0);
    FontsView {
        faces: seq![default] + extras.map_values(|e: (Seq<char>, Seq<u8>)| e.1),
        names: names_of(names),
        symbol: symbol_of(names),
    }
}

pub proof fn lemma_name_index_in(names: Seq<(Seq<char>, usize)>, n: Seq<char>)
    ensures
        name_index(names, n) matches Some(i) ==> exists|k: int| 0 <= k < names.len() && names[k].1 == i,
    decreases names.len(),
{
    if names.len() > 0 && names[0].0 != n {
        lemma_name_index_in(names.drop_first(), n);
        if name_index(names, n) is Some {
            let k = choose|k: int| 0 <= k < names.drop_first().len() && names.drop_first()[k].1 == name_index(names, n)->0;
            assert(names[k + 1].1 == name_index(names, n)->0);
        }
    }
}

pub proof fn lemma_name_index_push(names: Seq<(Seq<char>, usize)>, e: (Seq<char>, usize), n: Seq<char>)
    ensures
        name_index(names.push(e), n) == (if name_index(names, n) is Some {
            name_index(names, n)
        } else if e.0 == n {
            Some(e.1)
        } else {
            None
        }),
    decreases names.len(),
{
    if names.len() == 0 {
        assert(names.push(e).drop_first() =~= Seq::<(Seq<char>, usize)>::empty());
    } else {
        assert(names.push(e).drop_first() =~= names.drop_first().push(e));
        lemma_name_index_push(names.drop_first(), e, n);
    }
}

pub proof fn lemma_first_cover_in(v: FontsView, ch: char, i: int)
    ensures
        first_cover(v, ch, i) matches Some(k) ==> k < v.faces.len() && covers(v, k, ch),
    decreases v.faces.len() - i,
{
    if 0 <= i < v.faces.len() && !covers(v, i as usize, ch) {
        lemma_first_cover_in(v, ch, i + 1);
    }
}

/// The font chosen for any character is one of the loaded fonts.
pub proof fn law_pick_font_in_range(v: FontsView, ascii: Option<Seq<char>>, ea: Option<Seq<char>>, ch: char)
    requires
        fonts_wf(v),
    ensures
        pick_font(v, ascii, ea, ch) < v.faces.len(),
{
    lemma_first_cover_in(v, ch, 0);
    let declared = if spec_is_cjk(ch) {
        if ea is Some {
            ea
        } else {
            ascii
        }
    } else {
        if ascii is Some {
            ascii
        } else {
            ea
        }
    };
    if let Some(n) = declared {
        lemma_name_index_in(v.names, unicode_lower(n));
    }
}

pub proof fn lemma_first_cover_found(v: FontsView, ch: char, i: int, k: int)
    requires
        0 <= i <= k < v.faces.len(),
        covers(v, k as usize, ch),
    ensures
        first_cover(v, ch, i) is Some,
    decreases k - i,
{
    if !covers(v, i as usize, ch) {
        lemma_first_cover_found(v, ch, i + 1, k);
    }
}

/// A character that some loaded font can draw is drawn by a font that can
/// draw it: the chosen font never lacks the glyph while another has it.
pub proof fn law_pick_font_covers(
    v: FontsView,
    ascii: Option<Seq<char>>,
    ea: Option<Seq<char>>,
    ch: char,
    k: usize,
)
    requires
        fonts_wf(v),
        k < v.faces.len(),
        covers(v, k, ch),
    ensures
        covers(v, pick_font(v, ascii, ea, ch), ch),
{
    lemma_first_cover_found(v, ch, 0, k as int);
    lemma_first_cover_in(v, ch, 0);
}

impl Fonts {
    #[verifier::type_invariant]
    closed spec fn inv(self) -> bool {
        &&& fonts_wf(self@)
        &&& self.cover.len() == self.list.len()
        &&& forall|i: int| 0 <= i < self.list.len() ==> #[trigger] self.cover@[i]@ == face_coverage(
            self.list@[i]@,
        )
    }

    /// The fonts: `default` at index 0, then `extras` in order. An extra font is
    /// found by its lower-cased name (the first of equal names wins); the last
    /// extra font whose name holds `symbol`, `wingding`, `dingbat` or `webding`
    /// is the symbol font, else font 0.
    pub fn new(default: FontData, extras: Vec<(String, FontData)>) -> (f: Fonts)
        ensures
            f@ == spec_fonts(default@, extras@.map_values(|e: (String, FontData)| (e.0@, e.1@))),
            fonts_wf(f@),
    {
        let ghost ev = extras@.map_values(|e: (String, FontData)| (e.0@, e.1@));
        let ghost en = ev.map_values(|e: (Seq<char>, Seq<u8>)| e.0);
        let ghost dv = default@;
        let mut list: Vec<FontData> = Vec::new();
        let mut cover: Vec<HashSet<u32>> = Vec::new();
        cover.push(default.coverage());
        list.push(default);
        let mut by_name: Vec<(String, usize)> = Vec::new();
        let mut symbol: usize = 0;
        let mut rest = extras;
        let ghost total = rest.len();
        assert(faces_of(list@) =~= seq![dv]);
        assert(names_view(by_name@) =~= Seq::<(Seq<char>, usize)>::empty());
        let mut k: usize = 0;
        while rest.len() > 0
            invariant
                k + rest.len() == total,
                total == ev.len(),
                k <= total,
                ev == extras@.map_values(|e: (String, FontData)| (e.0@, e.1@)),
                en == ev.map_values(|e: (Seq<char>, Seq<u8>)| e.0),
                forall|j: int| 0 <= j < rest.len() ==> (#[trigger] rest@[j].0@, rest@[j].1@) == ev[k + j],
                list.len() == k + 1,
                cover.len() == list.len(),
                forall|i: int| 0 <= i < list.len() ==> #[trigger] cover@[i]@ == face_coverage(list@[i]@),
                faces_of(list@) == seq![dv] + ev.take(k as int).map_values(|e: (Seq<char>, Seq<u8>)| e.1),
                names_view(by_name@) == names_of(en.take(k as int)),
                symbol == symbol_of(en.take(k as int)),
                symbol < list.len(),
                forall|q: int| 0 <= q < by_name.len() ==> #[trigger] by_name@[q].1 < list.len(),
            decreases rest.len(),
        {
            let ghost old_rest = rest@;
            assert((rest@[0].0@, rest@[0].1@) == ev[k as int]);
            let (name, fd) = rest.remove(0);
            assert((name@, fd@) == ev[k as int]);
            let ghost nv = name@;
            let ghost fv = fd@;
            let idx = list.len();
            let ghost old_list = list@;
            cover.push(fd.coverage());
            list.push(fd);
            assert(faces_of(list@) =~= faces_of(old_list).push(fv));
            let low = lowercase(name.as_str());
            let lc = chars_of(low.as_str());
            if contains_sub(lc.as_slice(), "symbol") || contains_sub(lc.as_slice(), "wingding")
                || contains_sub(lc.as_slice(), "dingbat") || contains_sub(lc.as_slice(), "webding") {
                symbol = idx;
            }
            let mut found = false;
            let mut q: usize = 0;
            while q < by_name.len()
                invariant
                    q <= by_name.len(),
                    found == (name_index(names_view(by_name@).take(q as int), low@) is Some),
                decreases by_name.len() - q,
            {
                proof {
                    let nb = names_view(by_name@);
                    assert(nb.take(q + 1) =~= nb.take(q as int).push(nb[q as int]));
                    lemma_name_index_push(nb.take(q as int), nb[q as int], low@);
                }
                if crate::xml::str_eq(by_name[q].0.as_str(), low.as_str()) {
                    found = true;
                }
                q += 1;
            }
            proof {
                assert(names_view(by_name@).take(q as int) =~= names_view(by_name@));
                let en1 = en.take(k + 1);
                assert(en1.drop_last() =~= en.take(k as int));
                assert(en1.last() == nv);
                let ev1 = ev.take(k + 1);
                assert(ev1 =~= ev.take(k as int).push((nv, fv)));
                assert(ev1.map_values(|e: (Seq<char>, Seq<u8>)| e.1) =~= ev.take(k as int).map_values(
                    |e: (Seq<char>, Seq<u8>)| e.1,
                ).push(fv));
                assert(faces_of(list@) =~= seq![dv] + ev1.map_values(|e: (Seq<char>, Seq<u8>)| e.1));
            }
            if !found {
                let ghost before = names_view(by_name@);
                let ghost lv = low@;
                by_name.push((low, idx));
                assert(names_view(by_name@) =~= before.push((lv, idx)));
            }
            k += 1;
            proof {
                assert forall|j: int| 0 <= j < rest.len() implies (#[trigger] rest@[j].0@, rest@[j].1@) == ev[k
                    + j] by {
                    assert(rest@[j] == old_rest[j + 1]);
                }
            }
        }
        assert(ev.take(k as int) =~= ev);
        assert(en.take(k as int) =~= en);
        assert(ev.map_values(|e: (Seq<char>, Seq<u8>)| e.0) == en);
        Fonts { list, cover, by_name, symbol }
    }

    /// Whether font `i` can draw `ch` (white space always can).
    pub fn covers(&self, i: usize, ch: char) -> (b: bool)
        ensures
            b == covers(self@, i, ch),
    {
        proof {
            use_type_invariant(self);
        }
        if is_whitespace(ch) {
            return true;
        }
        if i < self.cover.len() {
            let c = ch as u32;
            self.cover[i].contains(&c)
        } else {
            false
        }
    }

    fn first_cover_exec(&self, ch: char) -> (r: Option<usize>)
        ensures
            r == first_cover(self@, ch, 0),
    {
        proof {
            use_type_invariant(self);
        }
        let n = self.list.len();
        let mut i: usize = 0;
        while i < n
            invariant
                i <= n,
                n == self@.faces.len(),
                first_cover(self@, ch, 0) == first_cover(self@, ch, i as int),
            decreases n - i,
        {
            if self.covers(i, ch) {
                return Some(i);
            }
            i += 1;
        }
        None
    }

    fn named(&self, name: &str) -> (r: Option<usize>)
        ensures
            r == name_index(self@.names, unicode_lower(name@)),
    {
        let low = lowercase(name);
        let mut q: usize = 0;
        let ghost nb = self@.names;
        assert(nb.skip(0) =~= nb);
        while q < self.by_name.len()
            invariant
                q <= self.by_name.len(),
                nb == self@.names,
                nb.len() == self.by_name.len(),
                low@ == unicode_lower(name@),
                name_index(nb, low@) == name_index(nb.skip(q as int), low@),
            decreases self.by_name.len() - q,
        {
            assert(nb.skip(q as int)[0] == nb[q as int]);
            assert(nb[q as int] == (self.by_name@[q as int].0@, self.by_name@[q as int].1));
            if crate::xml::str_eq(self.by_name[q].0.as_str(), low.as_str()) {
                assert(nb.skip(q as int).len() > 0);
                assert(name_index(nb.skip(q as int), low@) == Some(nb[q as int].1));
                assert(low@ == unicode_lower(name@));
                assert(name_index(nb, low@) == Some(self.by_name@[q as int].1));
                return Some(self.by_name[q].1);
            }
            assert(nb.skip(q as int).drop_first() =~= nb.skip(q + 1));
            q += 1;
        }
        None
    }

    /// The font for `ch` in a run whose Latin family is `ascii` and East
    /// Asian family is `ea`.
    pub fn idx_for(&self, ascii: Option<&str>, ea: Option<&str>, ch: char) -> (i: usize)
        ensures
            i == pick_font(
                self@,
                match ascii {
                    Some(a) => Some(a@),
                    None => None,
                },
                match ea {
                    Some(e) => Some(e@),
                    None => None,
                },
                ch,
            ),
            i < self@.faces.len(),
    {
        proof {
            use_type_invariant(self);
            law_pick_font_in_range(
                self@,
                match ascii {
                    Some(a) => Some(a@),
                    None => None,
                },
                match ea {
                    Some(e) => Some(e@),
                    None => None,
                },
                ch,
            );
        }
        let declared = if is_cjk(ch) {
            if ea.is_some() {
                ea
            } else {
                ascii
            }
        } else {
            if ascii.is_some() {
                ascii
            } else {
                ea
            }
        };
        match declared {
            Some(name) => match self.named(name) {
                Some(i) => {
                    if self.covers(i, ch) {
                        return i;
                    }
                },
                None => {},
            },
            None => {},
        }
        let fb = if is_symbol(ch) {
            self.symbol
        } else {
            0
        };
        if self.covers(fb, ch) {
            return fb;
        }
        match self.first_cover_exec(ch) {
            Some(i) => i,
            None => fb,
        }
    }

    /// Font `i`, or the last font when `i` is past the end.
    pub fn get(&self, i: usize) -> (f: &FontData)
        ensures
            f@ == self@.faces[if i < self@.faces.len() {
                i as int
            } else {
                self@.faces.len() - 1
            }],
    {
        proof {
            use_type_invariant(self);
        }
        let n = self.list.len();
        if i < n {
            &self.list[i]
        } else {
            &self.list[n - 1]
        }
    }

    /// The loaded fonts, indexed as [`Fonts::idx_for`] counts.
    pub fn data(&self) -> (d: &[FontData])
        ensures
            faces_of(d@) == self@.faces,
    {
        self.list.as_slice()
    }
}

} // verus!
