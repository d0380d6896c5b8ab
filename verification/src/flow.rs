//! Block/span model of rich-text documents, produced by the Markdown, plain-text,
//! RTF and OpenDocument parsers and laid out by the flow renderer.

use vstd::prelude::*;
use crate::color::Color;

verus! {

/// A font size as the source document writes it.
pub enum SpanSize {
    /// Whole pixels.
    Pixels(u32),
    /// RTF `\fsN`: half-points.
    HalfPoints(i32),
    /// OpenDocument `fo:font-size` with the `pt` suffix removed (decimal text).
    Points(String),
}

/// Spec value of a [`SpanSize`].
pub enum SpanSizeView {
    Pixels(u32),
    HalfPoints(i32),
    Points(Seq<char>),
}

impl View for SpanSize {
    type V = SpanSizeView;

    open spec fn view(&self) -> SpanSizeView {
        match self {
            SpanSize::Pixels(n) => SpanSizeView::Pixels(*n),
            SpanSize::HalfPoints(n) => SpanSizeView::HalfPoints(*n),
            SpanSize::Points(s) => SpanSizeView::Points(s@),
        }
    }
}

/// An inline styled text span.
pub struct Span {
    pub text: String,
    pub bold: bool,
    pub italic: bool,
    pub mono: bool,
    pub strike: bool,
    pub underline: bool,
    pub color: Option<Color>,
    /// Explicit size (overrides the block default).
    pub size: Option<SpanSize>,
}

/// Spec value of a [`Span`].
pub struct SpanView {
    pub text: Seq<char>,
    pub bold: bool,
    pub italic: bool,
    pub mono: bool,
    pub strike: bool,
    pub underline: bool,
    pub color: Option<Color>,
    pub size: Option<SpanSizeView>,
}

impl View for Span {
    type V = SpanView;

    open spec fn view(&self) -> SpanView {
        SpanView {
            text: self.text@,
            bold: self.bold,
            italic: self.italic,
            mono: self.mono,
            strike: self.strike,
            underline: self.underline,
            color: self.color,
            size: match &self.size {
                Some(s) => Some(s@),
                None => None,
            },
        }
    }
}

/// A plain span: no styling.
pub open spec fn plain(text: Seq<char>) -> SpanView {
    SpanView {
        text,
        bold: false,
        italic: false,
        mono: false,
        strike: false,
        underline: false,
        color: None,
        size: None,
    }
}

impl Span {
    /// A plain span holding `text`.
    pub fn new(text: String) -> (s: Span)
        ensures
            s@ == plain(text@),
    {
        Span {
            text,
            bold: false,
            italic: false,
            mono: false,
            strike: false,
            underline: false,
            color: None,
            size: None,
        }
    }
}

/// A block-level element.
pub enum Block {
    /// Heading, level 1..=6.
    Heading(u8, Vec<Span>),
    Para(Vec<Span>),
    /// List item: indent level (0-based), marker text (e.g. "1.") or bullet.
    ListItem { level: u8, marker: String, spans: Vec<Span> },
    /// Pre-formatted code block (one entry per line).
    Code(Vec<String>),
    /// Block quote.
    Quote(Vec<Span>),
    /// Horizontal rule.
    Rule,
}

/// Spec value of a [`Block`].
pub enum BlockView {
    Heading(u8, Seq<SpanView>),
    Para(Seq<SpanView>),
    ListItem { level: u8, marker: Seq<char>, spans: Seq<SpanView> },
    Code(Seq<Seq<char>>),
    Quote(Seq<SpanView>),
    Rule,
}

/// Spec values of a span list.
pub open spec fn spans_view(v: Seq<Span>) -> Seq<SpanView> {
    v.map_values(|s: Span| s@)
}

/// Spec values of a list of strings.
pub open spec fn strings_view(v: Seq<String>) -> Seq<Seq<char>> {
    v.map_values(|s: String| s@)
}

impl View for Block {
    type V = BlockView;

    open spec fn view(&self) -> BlockView {
        match self {
            Block::Heading(l, s) => BlockView::Heading(*l, spans_view(s@)),
            Block::Para(s) => BlockView::Para(spans_view(s@)),
            Block::ListItem { level, marker, spans } => BlockView::ListItem {
                level: *level,
                marker: marker@,
                spans: spans_view(spans@),
            },
            Block::Code(lines) => BlockView::Code(strings_view(lines@)),
            Block::Quote(s) => BlockView::Quote(spans_view(s@)),
            Block::Rule => BlockView::Rule,
        }
    }
}

/// Spec values of a block list.
pub open spec fn blocks_view(v: Seq<Block>) -> Seq<BlockView> {
    v.map_values(|b: Block| b@)
}

/// The block list holding one empty paragraph (what the parsers return for an
/// empty document).
pub open spec fn empty_doc() -> Seq<BlockView> {
    seq![BlockView::Para(seq![plain(Seq::empty())])]
}

/// A list holding one empty plain paragraph.
pub fn empty_para_doc() -> (v: Vec<Block>)
    ensures
        blocks_view(v@) == empty_doc(),
        v.len() == 1,
{
    let mut spans = Vec::new();
    spans.push(Span::new(String::new()));
    let mut v = Vec::new();
    v.push(Block::Para(spans));
    assert(spans_view(spans@) =~= seq![plain(Seq::empty())]);
    assert(blocks_view(v@) =~= empty_doc());
    v
}

} // verus!
