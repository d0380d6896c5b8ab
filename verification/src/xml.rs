//! XML and ZIP access for the OpenDocument parsers.
//!
//! `quick-xml` tokenises the text and `zip` opens the package; both stay behind
//! trusted items. The parsers read the token stream as [`XmlEvent`] values of
//! this crate, so everything that decides what a document contains is verified.

use vstd::prelude::*;
use quick_xml::events::{BytesStart, Event};
use quick_xml::reader::Reader;
use std::io::Read;

verus! {

#[verifier::external_type_specification]
#[verifier::external_body]
#[verifier::reject_recursive_types(R)]
pub struct ExXmlReader<R>(Reader<R>);

#[verifier::external_type_specification]
#[verifier::external_body]
pub struct ExBytesStart<'a>(BytesStart<'a>);

/// One attribute: qualified key and raw (not unescaped) value.
pub struct XmlAttr {
    pub key: String,
    pub value: String,
}

/// Spec value of an [`XmlAttr`].
pub struct XmlAttrView {
    pub key: Seq<char>,
    pub value: Seq<char>,
}

impl View for XmlAttr {
    type V = XmlAttrView;

    open spec fn view(&self) -> XmlAttrView {
        XmlAttrView { key: self.key@, value: self.value@ }
    }
}

/// A start or empty-element tag: qualified name, local name, attributes.
pub struct XmlTag {
    pub name: String,
    pub local: String,
    pub attrs: Vec<XmlAttr>,
}

/// Spec value of an [`XmlTag`].
pub struct XmlTagView {
    pub name: Seq<char>,
    pub local: Seq<char>,
    pub attrs: Seq<XmlAttrView>,
}

impl View for XmlTag {
    type V = XmlTagView;

    open spec fn view(&self) -> XmlTagView {
        XmlTagView {
            name: self.name@,
            local: self.local@,
            attrs: self.attrs@.map_values(|a: XmlAttr| a@),
        }
    }
}

/// One token of an XML document.
pub enum XmlEvent {
    Start(XmlTag),
    Empty(XmlTag),
    /// End tag: qualified and local name.
    End(String, String),
    /// Character data with entity references resolved (empty if they cannot be).
    Text(String),
    /// Comment, CDATA, declaration, processing instruction or doctype.
    Other,
    Eof,
    Error,
}

/// Spec value of an [`XmlEvent`].
pub enum XmlEventView {
    Start(XmlTagView),
    Empty(XmlTagView),
    End(Seq<char>, Seq<char>),
    Text(Seq<char>),
    Other,
    Eof,
    Error,
}

impl View for XmlEvent {
    type V = XmlEventView;

    open spec fn view(&self) -> XmlEventView {
        match self {
            XmlEvent::Start(t) => XmlEventView::Start(t@),
            XmlEvent::Empty(t) => XmlEventView::Empty(t@),
            XmlEvent::End(n, l) => XmlEventView::End(n@, l@),
            XmlEvent::Text(s) => XmlEventView::Text(s@),
            XmlEvent::Other => XmlEventView::Other,
            XmlEvent::Eof => XmlEventView::Eof,
            XmlEvent::Error => XmlEventView::Error,
        }
    }
}

/// The tokens `quick_xml::Reader::from_str(text)` yields, in order, before the
/// first end-of-file or error.
pub uninterp spec fn xml_events(text: Seq<char>) -> Seq<XmlEventView>;

/// The bytes stored under `name` in the ZIP archive `archive`, when the archive
/// opens, holds that entry, and the entry reads back without error.
pub uninterp spec fn zip_entry(archive: Seq<u8>, name: Seq<char>) -> Option<Seq<u8>>;

/// A token stream over one XML text.
pub struct XmlStream<'a> {
    reader: Reader<&'a [u8]>,
    text: Ghost<Seq<char>>,
    count: Ghost<nat>,
}

impl<'a> XmlStream<'a> {
    /// The text being read.
    pub closed spec fn text(&self) -> Seq<char> {
        self.text@
    }

    /// Number of tokens read so far.
    pub closed spec fn count(&self) -> nat {
        self.count@
    }

    /// Starts reading `xml` with `quick_xml::Reader::from_str`.
    #[verifier::external_body]
    pub(crate) fn new(xml: &'a str) -> (s: XmlStream<'a>)
        ensures
            s.text() == xml@,
            s.count() == 0,
    {
        XmlStream { reader: Reader::from_str(xml), text: Ghost(xml@), count: Ghost(0) }
    }

    /// Reads the next token with `quick_xml::Reader::read_event`, converting it
    /// one for one (tags by [`tag_of`], end-tag names with
    /// `String::from_utf8_lossy`, character data with `unescape`). Claims that
    /// the tokens follow [`xml_events`], which ends where the reader reports
    /// end-of-file or an error.
    #[verifier::external_body]
    pub(crate) fn next_event(&mut self) -> (ev: XmlEvent)
        requires
            old(self).count() <= xml_events(old(self).text()).len(),
        ensures
            final(self).text() == old(self).text(),
            final(self).count() == old(self).count() + 1,
            old(self).count() < xml_events(old(self).text()).len() ==> ev@ == xml_events(
                old(self).text(),
            )[old(self).count() as int] && !(ev is Eof) && !(ev is Error),
            old(self).count() == xml_events(old(self).text()).len() ==> (ev is Eof || ev is Error),
    {
        self.count = Ghost(self.count@ + 1);
        let text = |b: &[u8]| String::from_utf8_lossy(b).into_owned();
        match self.reader.read_event() {
            Ok(Event::Start(e)) => XmlEvent::Start(tag_of(&e)),
            Ok(Event::Empty(e)) => XmlEvent::Empty(tag_of(&e)),
            Ok(Event::End(e)) => XmlEvent::End(text(e.name().as_ref()), text(e.local_name().as_ref())),
            Ok(Event::Text(t)) => XmlEvent::Text(t.unescape().unwrap_or_default().into_owned()),
            Ok(Event::Eof) => XmlEvent::Eof,
            Ok(_) => XmlEvent::Other,
            Err(_) => XmlEvent::Error,
        }
    }
}

/// Spec values of a token sequence.
pub open spec fn events_view(v: Seq<XmlEvent>) -> Seq<XmlEventView> {
    v.map_values(|e: XmlEvent| e@)
}

/// The tokens of `xml`, in order, up to its end or the first error.
pub fn xml_tokens(xml: &str) -> (v: Vec<XmlEvent>)
    ensures
        events_view(v@) == xml_events(xml@),
{
    let ghost evs = xml_events(xml@);
    let mut s = XmlStream::new(xml);
    let mut out: Vec<XmlEvent> = Vec::new();
    loop
        invariant_except_break
            s.count() <= evs.len(),
            events_view(out@) == evs.take(s.count() as int),
        invariant
            s.text() == xml@,
            evs == xml_events(xml@),
        ensures
            events_view(out@) == evs,
        decreases evs.len() - s.count(),
    {
        let ghost k = s.count();
        let ev = s.next_event();
        match ev {
            XmlEvent::Eof | XmlEvent::Error => {
                assert(evs.take(k as int) =~= evs);
                break;
            },
            _ => {
                let ghost before = events_view(out@);
                out.push(ev);
                assert(events_view(out@) =~= before.push(evs[k as int]));
                assert(evs.take((k + 1) as int) =~= evs.take(k as int).push(evs[k as int]));
            },
        }
    }
    out
}

/// Converts a `quick_xml` start tag one for one: qualified name, local name,
/// and each well-formed attribute's key and raw value, all with
/// `String::from_utf8_lossy`. What the tag holds is claimed by
/// [`XmlStream::next_event`].
#[verifier::external_body]
fn tag_of(e: &BytesStart) -> XmlTag {
    let text = |b: &[u8]| String::from_utf8_lossy(b).into_owned();
    XmlTag {
        name: text(e.name().as_ref()),
        local: text(e.local_name().as_ref()),
        attrs: e.attributes().flatten().map(|a| XmlAttr { key: text(a.key.as_ref()), value: text(&a.value) }).collect(),
    }
}

/// Opens `archive` with `zip::ZipArchive::new` and reads the entry `name` with
/// `by_name` and `read_to_end`. The contract only names the result.
#[verifier::external_body]
pub(crate) fn read_zip_entry(archive: &[u8], name: &str) -> (r: Option<Vec<u8>>)
    ensures
        match r {
            Some(v) => zip_entry(archive@, name@) == Some(v@),
            None => zip_entry(archive@, name@) is None,
        },
{
    let mut zip = zip::ZipArchive::new(std::io::Cursor::new(archive.to_vec())).ok()?;
    let mut f = zip.by_name(name).ok()?;
    let mut v = Vec::new();
    f.read_to_end(&mut v).ok()?;
    Some(v)
}

/// `String::from_utf8`: the text when `bytes` is valid UTF-8.
#[verifier::external_body]
pub(crate) fn utf8_text(bytes: Vec<u8>) -> (r: Option<String>)
    ensures
        match r {
            Some(s) => vstd::utf8::valid_utf8(bytes@) && s@ == vstd::utf8::decode_utf8(bytes@),
            None => !vstd::utf8::valid_utf8(bytes@),
        },
{
    String::from_utf8(bytes).ok()
}

/// What `String::from_utf8_lossy` makes of `bytes`.
pub uninterp spec fn utf8_lossy(bytes: Seq<u8>) -> Seq<char>;

/// `String::from_utf8_lossy`: invalid sequences become U+FFFD; valid UTF-8
/// decodes unchanged.
#[verifier::external_body]
pub(crate) fn lossy_text(bytes: &[u8]) -> (s: String)
    ensures
        s@ == utf8_lossy(bytes@),
        vstd::utf8::valid_utf8(bytes@) ==> s@ == vstd::utf8::decode_utf8(bytes@),
{
    String::from_utf8_lossy(bytes).into_owned()
}

/// Value of the first attribute whose key is `key`.
pub open spec fn attr_of(attrs: Seq<XmlAttrView>, key: Seq<char>) -> Option<Seq<char>>
    decreases attrs.len(),
{
    if attrs.len() == 0 {
        None
    } else if attrs[0].key == key {
        Some(attrs[0].value)
    } else {
        attr_of(attrs.drop_first(), key)
    }
}

/// Value of attribute `key` of a tag.
pub open spec fn tag_attr(t: XmlTagView, key: Seq<char>) -> Option<Seq<char>> {
    attr_of(t.attrs, key)
}

/// Spec value of an optional string.
pub open spec fn opt_view(o: Option<String>) -> Option<Seq<char>> {
    match o {
        Some(s) => Some(s@),
        None => None,
    }
}

/// Whether two string slices hold the same characters.
pub fn str_eq(a: &str, b: &str) -> (r: bool)
    ensures
        r == (a@ == b@),
{
    let x = crate::chars::chars_of(a);
    let y = crate::chars::chars_of(b);
    if x.len() != y.len() {
        return false;
    }
    let mut i: usize = 0;
    while i < x.len()
        invariant
            i <= x.len() == y.len(),
            x@ == a@,
            y@ == b@,
            forall|j: int| 0 <= j < i ==> x@[j] == y@[j],
        decreases x.len() - i,
    {
        if x[i] != y[i] {
            assert(x@[i as int] != y@[i as int]);
            return false;
        }
        i += 1;
    }
    assert(x@ =~= y@);
    true
}

/// Value of the first attribute of `t` whose key is `key` (`get_attr`).
pub fn get_attr(t: &XmlTag, key: &str) -> (r: Option<String>)
    ensures
        opt_view(r) == tag_attr(t@, key@),
{
    let mut i: usize = 0;
    assert(t@.attrs.skip(0) =~= t@.attrs);
    while i < t.attrs.len()
        invariant
            i <= t.attrs.len(),
            attr_of(t@.attrs, key@) == attr_of(t@.attrs.skip(i as int), key@),
        decreases t.attrs.len() - i,
    {
        assert(t@.attrs.skip(i as int)[0] == t.attrs@[i as int]@);
        if str_eq(t.attrs[i].key.as_str(), key) {
            return Some(t.attrs[i].value.clone());
        }
        assert(t@.attrs.skip(i as int).drop_first() =~= t@.attrs.skip(i + 1));
        i += 1;
    }
    None
}

/// An attribute read as a `u32` (`str::parse`), `None` when absent or invalid.
pub open spec fn attr_u32(t: XmlTagView, key: Seq<char>) -> Option<u32> {
    match tag_attr(t, key) {
        Some(v) => match crate::chars::parse_unsigned(v, 0xFFFF_FFFF) {
            Some(n) => Some(n as u32),
            None => None,
        },
        None => None,
    }
}

/// An attribute read as an `i32` (`str::parse`), `None` when absent or invalid.
pub open spec fn attr_i32(t: XmlTagView, key: Seq<char>) -> Option<i32> {
    match tag_attr(t, key) {
        Some(v) => match crate::chars::parse_i32(v) {
            Some(n) => Some(n as i32),
            None => None,
        },
        None => None,
    }
}

/// The attribute `key` of `t` parsed as a `u32`.
pub fn get_attr_u32(t: &XmlTag, key: &str) -> (r: Option<u32>)
    ensures
        r == attr_u32(t@, key@),
{
    match get_attr(t, key) {
        Some(v) => {
            let cs = crate::chars::chars_of(v.as_str());
            match crate::chars::parse_unsigned_chars(cs.as_slice(), 0xFFFF_FFFF) {
                Some(n) => Some(n as u32),
                None => None,
            }
        },
        None => None,
    }
}

/// The attribute `key` of `t` parsed as an `i32`.
pub fn get_attr_i32(t: &XmlTag, key: &str) -> (r: Option<i32>)
    ensures
        r == attr_i32(t@, key@),
{
    match get_attr(t, key) {
        Some(v) => {
            let cs = crate::chars::chars_of(v.as_str());
            crate::chars::parse_i32_chars(cs.as_slice())
        },
        None => None,
    }
}

} // verus!
