//! Office Open XML packages: relationship targets, relationship tables and
//! the worksheet part of a workbook sheet.

use vstd::prelude::*;
use crate::chars::{append_chars, chars_of, copy_range, find_char, find_from, lemma_find_from, string_of};
use crate::xml::{
    events_view, xml_tokens,
    XmlEvent, XmlEventView, XmlTag, get_attr, read_zip_entry, str_eq, tag_attr,
    utf8_text, xml_events, zip_entry,
};

verus! {

// ------------------------------------------------------------------------
// Relationship targets
// ------------------------------------------------------------------------

/// `str::split('/')`: the pieces between slashes, empty ones included.
pub open spec fn split_slash(s: Seq<char>) -> Seq<Seq<char>>
    decreases s.len(),
{
    let k = find_from(s, 0, '/');
    if k >= s.len() {
        seq![s]
    } else {
        proof {
            lemma_find_from(s, 0, '/');
        }
        seq![s.take(k)] + split_slash(s.skip(k + 1))
    }
}

/// The non-empty pieces.
pub open spec fn non_empty(ps: Seq<Seq<char>>) -> Seq<Seq<char>>
    decreases ps.len(),
{
    if ps.len() == 0 {
        ps
    } else if ps.last().len() == 0 {
        non_empty(ps.drop_last())
    } else {
        non_empty(ps.drop_last()).push(ps.last())
    }
}

/// One segment of a relative target applied to the path so far: `..` goes up
/// (not above the root), `.` and empty segments stay, others go down.
pub open spec fn apply_seg(parts: Seq<Seq<char>>, seg: Seq<char>) -> Seq<Seq<char>> {
    if seg == seq!['.', '.'] {
        if parts.len() > 0 {
            parts.drop_last()
        } else {
            parts
        }
    } else if seg == seq!['.'] || seg.len() == 0 {
        parts
    } else {
        parts.push(seg)
    }
}

/// The segments applied in order.
pub open spec fn apply_segs(parts: Seq<Seq<char>>, segs: Seq<Seq<char>>) -> Seq<Seq<char>>
    decreases segs.len(),
{
    if segs.len() == 0 {
        parts
    } else {
        apply_seg(apply_segs(parts, segs.drop_last()), segs.last())
    }
}

/// The pieces joined with `/`.
pub open spec fn join_slash(ps: Seq<Seq<char>>) -> Seq<char>
    decreases ps.len(),
{
    if ps.len() == 0 {
        Seq::empty()
    } else if ps.len() == 1 {
        ps[0]
    } else {
        join_slash(ps.drop_last()).push('/') + ps.last()
    }
}

/// Path segments of a relationship target resolved against the directory of
/// the part that holds the relationship.
pub open spec fn resolved_parts(base_dir: Seq<char>, target: Seq<char>) -> Seq<Seq<char>> {
    apply_segs(non_empty(split_slash(base_dir)), split_slash(target))
}

/// Package path of a relationship target: an absolute target (leading `/`)
/// is taken as it is, a relative one is resolved against `base_dir`.
pub open spec fn spec_resolve_rel(base_dir: Seq<char>, target: Seq<char>) -> Seq<char> {
    if target.len() > 0 && target[0] == '/' {
        target.drop_first()
    } else {
        join_slash(resolved_parts(base_dir, target))
    }
}

/// Spec values of a list of character vectors.
pub open spec fn parts_view(v: Seq<Vec<char>>) -> Seq<Seq<char>> {
    v.map_values(|p: Vec<char>| p@)
}

fn split_slash_exec(s: &[char]) -> (v: Vec<Vec<char>>)
    ensures
        parts_view(v@) == split_slash(s@),
{
    let mut out: Vec<Vec<char>> = Vec::new();
    let mut start: usize = 0;
    assert(s@.skip(0) =~= s@);
    loop
        invariant
            start <= s.len(),
            parts_view(out@) + split_slash(s@.skip(start as int)) == split_slash(s@),
        decreases s.len() - start,
    {
        let ghost rest = s@.skip(start as int);
        let k = find_char(s, start, '/');
        proof {
            lemma_find_from(s@, start as int, '/');
            lemma_find_from(rest, 0, '/');
            assert forall|j: int| 0 <= j < k - start implies rest[j] != '/' by {
                assert(rest[j] == s@[start + j]);
            }
            if k < s.len() {
                assert(rest[k - start] == s@[k as int]);
            }
            lemma_find_at(rest, k - start);
        }
        let piece = copy_range(s, start, k);
        let ghost before = parts_view(out@);
        out.push(piece);
        assert(parts_view(out@) =~= before.push(piece@));
        if k >= s.len() {
            assert(piece@ =~= rest);
            assert(before.push(piece@) =~= before + seq![rest]);
            return out;
        }
        assert(piece@ =~= rest.take(k - start));
        assert(rest.skip(k - start + 1) =~= s@.skip(k + 1));
        assert(before.push(piece@) + split_slash(s@.skip(k + 1)) =~= before + (seq![
            rest.take(k - start),
        ] + split_slash(rest.skip(k - start + 1))));
        start = k + 1;
    }
}

proof fn lemma_find_at(s: Seq<char>, k: int)
    requires
        0 <= k <= s.len(),
        forall|j: int| 0 <= j < k ==> s[j] != '/',
        k < s.len() ==> s[k] == '/',
    ensures
        find_from(s, 0, '/') == k,
{
    lemma_find_at_from(s, 0, k);
}

proof fn lemma_find_at_from(s: Seq<char>, i: int, k: int)
    requires
        0 <= i <= k <= s.len(),
        forall|j: int| i <= j < k ==> s[j] != '/',
        k < s.len() ==> s[k] == '/',
    ensures
        find_from(s, i, '/') == k,
    decreases k - i,
{
    if i < k {
        lemma_find_at_from(s, i + 1, k);
    }
}

fn is_dotdot(p: &Vec<char>) -> (b: bool)
    ensures
        b == (p@ == seq!['.', '.']),
{
    let r = p.len() == 2 && p[0] == '.' && p[1] == '.';
    proof {
        if p.len() == 2 && p@[0] == '.' && p@[1] == '.' {
            assert(p@ =~= seq!['.', '.']);
        }
    }
    r
}

fn is_dot(p: &Vec<char>) -> (b: bool)
    ensures
        b == (p@ == seq!['.']),
{
    let r = p.len() == 1 && p[0] == '.';
    proof {
        if p.len() == 1 && p@[0] == '.' {
            assert(p@ =~= seq!['.']);
        }
    }
    r
}

/// Resolves a relationship target against the directory of its source part.
pub fn resolve_rel(base_dir: &str, target: &str) -> (s: String)
    ensures
        s@ == spec_resolve_rel(base_dir@, target@),
{
    let t = chars_of(target);
    if t.len() > 0 && t[0] == '/' {
        let rest = copy_range(t.as_slice(), 1, t.len());
        assert(rest@ =~= target@.drop_first());
        return string_of(rest.as_slice());
    }
    let b = chars_of(base_dir);
    let bparts = split_slash_exec(b.as_slice());
    let ghost bv = parts_view(bparts@);
    let mut parts: Vec<Vec<char>> = Vec::new();
    let mut i: usize = 0;
    assert(parts_view(parts@) =~= non_empty(bv.take(0)));
    while i < bparts.len()
        invariant
            i <= bparts.len(),
            bv == parts_view(bparts@),
            parts_view(parts@) == non_empty(bv.take(i as int)),
        decreases bparts.len() - i,
    {
        assert(bv.take(i + 1).drop_last() =~= bv.take(i as int));
        assert(bv.take(i + 1).last() == bparts@[i as int]@);
        if bparts[i].len() > 0 {
            let ghost before = parts_view(parts@);
            let p = copy_range(bparts[i].as_slice(), 0, bparts[i].len());
            assert(p@ =~= bparts@[i as int]@);
            parts.push(p);
            assert(parts_view(parts@) =~= before.push(p@));
        }
        i += 1;
    }
    assert(bv.take(bparts.len() as int) =~= bv);
    let segs = split_slash_exec(t.as_slice());
    let ghost sv = parts_view(segs@);
    let ghost base_parts = parts_view(parts@);
    let mut j: usize = 0;
    assert(sv.take(0) =~= Seq::<Seq<char>>::empty());
    while j < segs.len()
        invariant
            j <= segs.len(),
            sv == parts_view(segs@),
            parts_view(parts@) == apply_segs(base_parts, sv.take(j as int)),
        decreases segs.len() - j,
    {
        assert(sv.take(j + 1).drop_last() =~= sv.take(j as int));
        assert(sv.take(j + 1).last() == segs@[j as int]@);
        let ghost before = parts_view(parts@);
        let seg = &segs[j];
        if is_dotdot(seg) {
            if parts.len() > 0 {
                parts.pop();
                assert(parts_view(parts@) =~= before.drop_last());
            }
        } else if is_dot(seg) || seg.len() == 0 {
        } else {
            let p = copy_range(seg.as_slice(), 0, seg.len());
            assert(p@ =~= seg@);
            parts.push(p);
            assert(parts_view(parts@) =~= before.push(p@));
        }
        j += 1;
    }
    assert(sv.take(segs.len() as int) =~= sv);
    let mut out: Vec<char> = Vec::new();
    let ghost pv = parts_view(parts@);
    let mut k: usize = 0;
    assert(out@ =~= join_slash(pv.take(0)));
    while k < parts.len()
        invariant
            k <= parts.len(),
            pv == parts_view(parts@),
            out@ == join_slash(pv.take(k as int)),
        decreases parts.len() - k,
    {
        assert(pv.take(k + 1).drop_last() =~= pv.take(k as int));
        assert(pv.take(k + 1).last() == parts@[k as int]@);
        if k > 0 {
            out.push('/');
        }
        append_chars(&mut out, parts[k].as_slice());
        k += 1;
    }
    assert(pv.take(parts.len() as int) =~= pv);
    string_of(out.as_slice())
}

/// A segment that names a file or directory: not empty, `.` or `..`.
pub open spec fn proper_seg(p: Seq<char>) -> bool {
    p.len() > 0 && p != seq!['.'] && p != seq!['.', '.']
}

/// Resolving only ever leaves named segments: when the base directory names
/// no `.` or `..`, the resolved path has no empty, `.` or `..` segment.
pub proof fn law_resolved_segments_named(base_dir: Seq<char>, target: Seq<char>)
    requires
        forall|j: int|
            0 <= j < split_slash(base_dir).len() ==> #[trigger] split_slash(base_dir)[j].len() == 0
                || proper_seg(split_slash(base_dir)[j]),
    ensures
        forall|j: int|
            0 <= j < resolved_parts(base_dir, target).len() ==> proper_seg(
                #[trigger] resolved_parts(base_dir, target)[j],
            ),
{
    let b = split_slash(base_dir);
    lemma_non_empty_proper(b);
    lemma_apply_segs_proper(non_empty(b), split_slash(target));
}

proof fn lemma_non_empty_proper(ps: Seq<Seq<char>>)
    requires
        forall|j: int| 0 <= j < ps.len() ==> #[trigger] ps[j].len() == 0 || proper_seg(ps[j]),
    ensures
        forall|j: int| 0 <= j < non_empty(ps).len() ==> proper_seg(#[trigger] non_empty(ps)[j]),
    decreases ps.len(),
{
    if ps.len() > 0 {
        let q = ps.drop_last();
        assert forall|j: int| 0 <= j < q.len() implies #[trigger] q[j].len() == 0 || proper_seg(q[j]) by {
            assert(q[j] == ps[j]);
        }
        lemma_non_empty_proper(q);
        assert(ps.last() == ps[ps.len() - 1]);
        let prev = non_empty(q);
        let cur = non_empty(ps);
        assert forall|j: int| 0 <= j < cur.len() implies proper_seg(#[trigger] cur[j]) by {
            if j < prev.len() {
                assert(cur[j] == prev[j]);
            }
        }
    }
}

proof fn lemma_apply_segs_proper(parts: Seq<Seq<char>>, segs: Seq<Seq<char>>)
    requires
        forall|j: int| 0 <= j < parts.len() ==> proper_seg(#[trigger] parts[j]),
    ensures
        forall|j: int| 0 <= j < apply_segs(parts, segs).len() ==> proper_seg(
            #[trigger] apply_segs(parts, segs)[j],
        ),
    decreases segs.len(),
{
    if segs.len() > 0 {
        lemma_apply_segs_proper(parts, segs.drop_last());
        let prev = apply_segs(parts, segs.drop_last());
        let cur = apply_segs(parts, segs);
        assert forall|j: int| 0 <= j < cur.len() implies proper_seg(#[trigger] cur[j]) by {
            if j < prev.len() {
                assert(cur[j] == prev[j]);
            }
        }
    }
}

// ------------------------------------------------------------------------
// Relationship tables
// ------------------------------------------------------------------------

/// The `(Id, Target)` pairs of the `<Relationship>` elements, in order.
pub open spec fn rels_step(acc: Seq<(Seq<char>, Seq<char>)>, ev: XmlEventView) -> Seq<(Seq<char>, Seq<char>)> {
    match ev {
        XmlEventView::Start(t) | XmlEventView::Empty(t) => {
            if t.name == "Relationship"@ {
                match (tag_attr(t, "Id"@), tag_attr(t, "Target"@)) {
                    (Some(id), Some(target)) => acc.push((id, target)),
                    _ => acc,
                }
            } else {
                acc
            }
        },
        _ => acc,
    }
}

/// Relationship pairs over a token sequence.
pub open spec fn rels_fold(evs: Seq<XmlEventView>) -> Seq<(Seq<char>, Seq<char>)>
    decreases evs.len(),
{
    if evs.len() == 0 {
        Seq::empty()
    } else {
        rels_step(rels_fold(evs.drop_last()), evs.last())
    }
}

/// Target of relationship `id`: the last pair with that id.
pub open spec fn rel_target(pairs: Seq<(Seq<char>, Seq<char>)>, id: Seq<char>) -> Option<Seq<char>>
    decreases pairs.len(),
{
    if pairs.len() == 0 {
        None
    } else if pairs.last().0 == id {
        Some(pairs.last().1)
    } else {
        rel_target(pairs.drop_last(), id)
    }
}

/// A relationship table: `(Id, Target)` pairs, a later pair for an id winning.
pub struct Rels {
    pub pairs: Vec<(String, String)>,
}

impl View for Rels {
    type V = Seq<(Seq<char>, Seq<char>)>;

    open spec fn view(&self) -> Seq<(Seq<char>, Seq<char>)> {
        self.pairs@.map_values(|p: (String, String)| (p.0@, p.1@))
    }
}

impl Rels {
    /// Target of relationship `id`.
    pub fn get(&self, id: &str) -> (r: Option<String>)
        ensures
            match r {
                Some(t) => rel_target(self@, id@) == Some(t@),
                None => rel_target(self@, id@) is None,
            },
    {
        let ghost v = self@;
        let mut i = self.pairs.len();
        assert(v.take(i as int) =~= v);
        while i > 0
            invariant
                i <= self.pairs.len(),
                v == self@,
                rel_target(v, id@) == rel_target(v.take(i as int), id@),
            decreases i,
        {
            assert(v.take(i as int).drop_last() =~= v.take(i - 1));
            assert(v.take(i as int).last() == (self.pairs@[i - 1].0@, self.pairs@[i - 1].1@));
            if str_eq(self.pairs[i - 1].0.as_str(), id) {
                return Some(string_of(chars_of(self.pairs[i - 1].1.as_str()).as_slice()));
            }
            i -= 1;
        }
        None
    }
}

/// Relationship table from the tokens of a `.rels` part.
pub fn rels_map(xml: &str) -> (r: Rels)
    ensures
        r@ == rels_fold(xml_events(xml@)),
{
    let toks = xml_tokens(xml);
    rels_map_events(toks.as_slice())
}

/// What [`rels_map`] computes, from the tokens `toks` of the text.
pub fn rels_map_events(toks: &[XmlEvent]) -> (r: Rels)
    ensures
        r@ == rels_fold(events_view(toks@)),
{
    let ghost evs = events_view(toks@);
    let mut i: usize = 0;
    let mut rels = Rels { pairs: Vec::new() };
    assert(rels@ =~= Seq::<(Seq<char>, Seq<char>)>::empty());
    while i < toks.len()
        invariant
            i <= toks.len(),
            rels@ == rels_fold(evs.take(i as int)),
            evs == events_view(toks@),
        decreases toks.len() - i,
    {
        let ghost k = i;
        assert(evs[k as int] == toks@[k as int]@);
        match &toks[i] {
            XmlEvent::Start(t) => {
                rel_add(&mut rels, t);
                assert(evs.take((k + 1) as int).drop_last() =~= evs.take(k as int));
            },
            XmlEvent::Empty(t) => {
                rel_add(&mut rels, t);
                assert(evs.take((k + 1) as int).drop_last() =~= evs.take(k as int));
            },
            _ => {
                assert(evs.take((k + 1) as int).drop_last() =~= evs.take(k as int));
            },
        }
        i += 1;
    }
    assert(evs.take(toks.len() as int) =~= evs);
    rels
}

fn rel_add(rels: &mut Rels, t: &XmlTag)
    ensures
        final(rels)@ == rels_step(old(rels)@, XmlEventView::Start(t@)),
{
    if str_eq(t.name.as_str(), "Relationship") {
        match (get_attr(t, "Id"), get_attr(t, "Target")) {
            (Some(id), Some(target)) => {
                let ghost before = rels@;
                let ghost pv = (id@, target@);
                rels.pairs.push((id, target));
                assert(rels@ =~= before.push(pv));
            },
            _ => {},
        }
    }
}

// ------------------------------------------------------------------------
// Workbook sheets
// ------------------------------------------------------------------------

/// The `r:id` of each `<sheet>` of `xl/workbook.xml`, in order.
pub open spec fn rids_step(acc: Seq<Seq<char>>, ev: XmlEventView) -> Seq<Seq<char>> {
    match ev {
        XmlEventView::Start(t) | XmlEventView::Empty(t) => {
            if t.name == "sheet"@ {
                match tag_attr(t, "r:id"@) {
                    Some(rid) => acc.push(rid),
                    None => acc,
                }
            } else {
                acc
            }
        },
        _ => acc,
    }
}

/// Sheet relationship ids over a token sequence.
pub open spec fn rids_fold(evs: Seq<XmlEventView>) -> Seq<Seq<char>>
    decreases evs.len(),
{
    if evs.len() == 0 {
        Seq::empty()
    } else {
        rids_step(rids_fold(evs.drop_last()), evs.last())
    }
}

/// Spec values of a list of strings.
pub open spec fn strs_view(v: Seq<String>) -> Seq<Seq<char>> {
    v.map_values(|s: String| s@)
}

fn rid_add(out: &mut Vec<String>, t: &XmlTag)
    ensures
        strs_view(final(out)@) == rids_step(strs_view(old(out)@), XmlEventView::Start(t@)),
{
    if str_eq(t.name.as_str(), "sheet") {
        match get_attr(t, "r:id") {
            Some(rid) => {
                let ghost before = strs_view(out@);
                let ghost rv = rid@;
                out.push(rid);
                assert(strs_view(out@) =~= before.push(rv));
            },
            None => {},
        }
    }
}

/// Worksheet relationship ids of `xl/workbook.xml`, in workbook order.
pub fn workbook_rids(xml: &str) -> (r: Vec<String>)
    ensures
        strs_view(r@) == rids_fold(xml_events(xml@)),
{
    let toks = xml_tokens(xml);
    workbook_rids_events(toks.as_slice())
}

/// What [`workbook_rids`] computes, from the tokens `toks` of the text.
pub fn workbook_rids_events(toks: &[XmlEvent]) -> (r: Vec<String>)
    ensures
        strs_view(r@) == rids_fold(events_view(toks@)),
{
    let ghost evs = events_view(toks@);
    let mut i: usize = 0;
    let mut out: Vec<String> = Vec::new();
    assert(strs_view(out@) =~= Seq::<Seq<char>>::empty());
    while i < toks.len()
        invariant
            i <= toks.len(),
            strs_view(out@) == rids_fold(evs.take(i as int)),
            evs == events_view(toks@),
        decreases toks.len() - i,
    {
        let ghost k = i;
        assert(evs[k as int] == toks@[k as int]@);
        match &toks[i] {
            XmlEvent::Start(t) => {
                rid_add(&mut out, t);
                assert(evs.take((k + 1) as int).drop_last() =~= evs.take(k as int));
            },
            XmlEvent::Empty(t) => {
                rid_add(&mut out, t);
                assert(evs.take((k + 1) as int).drop_last() =~= evs.take(k as int));
            },
            _ => {
                assert(evs.take((k + 1) as int).drop_last() =~= evs.take(k as int));
            },
        }
        i += 1;
    }
    assert(evs.take(toks.len() as int) =~= evs);
    out
}

/// Package path of a worksheet target of `xl/_rels/workbook.xml.rels`: an
/// absolute target without its `/`, a relative one under `xl/`.
pub open spec fn spec_sheet_part(target: Seq<char>) -> Seq<char> {
    if target.len() > 0 && target[0] == '/' {
        target.drop_first()
    } else {
        "xl/"@ + target
    }
}

/// The package path of a worksheet relationship target.
pub fn sheet_part(target: &str) -> (s: String)
    ensures
        s@ == spec_sheet_part(target@),
{
    let t = chars_of(target);
    if t.len() > 0 && t[0] == '/' {
        let rest = copy_range(t.as_slice(), 1, t.len());
        assert(rest@ =~= target@.drop_first());
        string_of(rest.as_slice())
    } else {
        let mut out = chars_of("xl/");
        append_chars(&mut out, t.as_slice());
        string_of(out.as_slice())
    }
}

/// Text of a package part, when it is present and valid UTF-8.
pub open spec fn part_text(archive: Seq<u8>, name: Seq<char>) -> Option<Seq<char>> {
    match zip_entry(archive, name) {
        Some(b) => if vstd::utf8::valid_utf8(b) {
            Some(vstd::utf8::decode_utf8(b))
        } else {
            None
        },
        None => None,
    }
}

/// Reads a package part as text.
pub fn read_part_text(archive: &[u8], name: &str) -> (r: Option<String>)
    ensures
        match r {
            Some(s) => part_text(archive@, name@) == Some(s@),
            None => part_text(archive@, name@) is None,
        },
{
    match read_zip_entry(archive, name) {
        Some(b) => utf8_text(b),
        None => None,
    }
}

/// Path of the `index`-th worksheet of a workbook: its relationship id from
/// `xl/workbook.xml`, that id's target in `xl/_rels/workbook.xml.rels`.
pub open spec fn spec_sheet_path(archive: Seq<u8>, index: nat) -> Option<Seq<char>> {
    match (part_text(archive, "xl/workbook.xml"@), part_text(archive, "xl/_rels/workbook.xml.rels"@)) {
        (Some(wb), Some(rels)) => {
            let rids = rids_fold(xml_events(wb));
            if index < rids.len() {
                match rel_target(rels_fold(xml_events(rels)), rids[index as int]) {
                    Some(t) => Some(spec_sheet_part(t)),
                    None => None,
                }
            } else {
                None
            }
        },
        _ => None,
    }
}

/// The worksheet part of the `index`-th sheet of an `.xlsx` package.
pub fn sheet_path(archive: &[u8], index: usize) -> (r: Option<String>)
    ensures
        match r {
            Some(p) => spec_sheet_path(archive@, index as nat) == Some(p@),
            None => spec_sheet_path(archive@, index as nat) is None,
        },
{
    let wb = match read_part_text(archive, "xl/workbook.xml") {
        Some(s) => s,
        None => return None,
    };
    let rels_text = match read_part_text(archive, "xl/_rels/workbook.xml.rels") {
        Some(s) => s,
        None => return None,
    };
    let rids = workbook_rids(wb.as_str());
    if index >= rids.len() {
        return None;
    }
    let rels = rels_map(rels_text.as_str());
    let rid = &rids[index];
    assert(strs_view(rids@)[index as int] == rid@);
    match rels.get(rid.as_str()) {
        Some(t) => Some(sheet_part(t.as_str())),
        None => None,
    }
}

} // verus!
