//! RTF and OpenDocument documents to blocks and sheets.

use std::io::Write;

use doc_viewer::color::Color;
use doc_viewer::flow::{Block, Span, SpanSize};
use doc_viewer::{odf, rtf};

fn zip_of(entries: &[(&str, &[u8])]) -> Vec<u8> {
    let mut w = zip::ZipWriter::new(std::io::Cursor::new(Vec::new()));
    let opts = zip::write::SimpleFileOptions::default().compression_method(zip::CompressionMethod::Stored);
    for (name, data) in entries {
        w.start_file(*name, opts).unwrap();
        w.write_all(data).unwrap();
    }
    w.finish().unwrap().into_inner()
}

fn texts(spans: &[Span]) -> Vec<String> {
    spans.iter().map(|s| s.text.clone()).collect()
}

fn para_texts(b: &[Block]) -> Vec<Vec<String>> {
    b.iter()
        .map(|x| match x {
            Block::Para(s) | Block::Heading(_, s) | Block::Quote(s) => texts(s),
            Block::ListItem { spans, .. } => texts(spans),
            Block::Code(l) => l.clone(),
            Block::Rule => vec!["---".to_string()],
        })
        .collect()
}

#[test]
fn rtf_paragraphs_and_bold() {
    let b = rtf::parse(b"{\\rtf1\\ansi Hello \\b bold\\b0 !\\par Next}");
    assert_eq!(para_texts(&b), vec![vec!["Hello ", "bold", "!"], vec!["Next"]]);
    match &b[0] {
        Block::Para(s) => {
            assert!(!s[0].bold && s[1].bold && !s[2].bold);
            assert!(matches!(s[0].size, Some(SpanSize::Pixels(15))));
        }
        _ => panic!(),
    }
}

#[test]
fn rtf_colors_sizes_unicode_and_hex() {
    let b = rtf::parse(b"{\\rtf1{\\colortbl;\\red255\\green0\\blue0;}\\cf1\\fs48 Red \\u8364?\\'e9}");
    match &b[0] {
        Block::Para(s) => {
            assert_eq!(texts(s), vec!["Red ", "\u{20ac}", "\u{e9}"]);
            assert_eq!(s[0].color, Some(Color::rgb(255, 0, 0)));
            assert!(matches!(s[0].size, Some(SpanSize::HalfPoints(48))));
        }
        _ => panic!(),
    }
}

#[test]
fn rtf_skips_font_tables_and_empty_input() {
    let b = rtf::parse(b"{\\rtf1{\\fonttbl{\\f0 Arial;}}Body}");
    assert_eq!(para_texts(&b), vec![vec!["Body"]]);
    let b = rtf::parse(b"");
    assert_eq!(para_texts(&b), vec![vec![""]]);
    let b = rtf::parse(b"a\\par");
    assert_eq!(para_texts(&b), vec![vec!["a"]]);
}

const ODT: &[u8] = br##"<?xml version="1.0"?>
<office:document-content xmlns:office="o" xmlns:text="t" xmlns:style="s" xmlns:fo="f">
<office:automatic-styles><style:style style:name="T1"><style:text-properties fo:font-weight="bold" fo:color="#FF0000" fo:font-size="12pt"/></style:style><style:style style:name="T2"><style:text-properties fo:font-size="bigpt" fo:font-style="italic"/></style:style></office:automatic-styles>
<office:body><office:text>
<text:h text:outline-level="2">Title</text:h>
<text:p>Hello <text:span text:style-name="T1">bold</text:span><text:s text:c="2"/>end</text:p>
<text:p>   </text:p>
<text:list><text:list-item><text:p>item</text:p></text:list-item></text:list>
</office:text></office:body></office:document-content>"##;

#[test]
fn odt_headings_styles_and_lists() {
    let z = zip_of(&[("content.xml", ODT)]);
    let b = odf::parse_text(&z);
    assert_eq!(b.len(), 3);
    match &b[0] {
        Block::Heading(2, s) => assert_eq!(texts(s), vec!["Title"]),
        _ => panic!(),
    }
    match &b[1] {
        Block::Para(s) => {
            assert_eq!(texts(s), vec!["Hello ", "bold", "  ", "end"]);
            assert!(s[1].bold && s[1].color == Some(Color::rgb(255, 0, 0)) && !s[0].bold);
            assert!(matches!(&s[1].size, Some(SpanSize::Points(p)) if p == "12"));
        }
        _ => panic!(),
    }
    match &b[2] {
        Block::ListItem { level, marker, spans } => {
            assert_eq!((*level, marker.as_str()), (0, "\u{2022}"));
            assert_eq!(texts(spans), vec!["item"]);
        }
        _ => panic!(),
    }
    let empty = odf::parse_text(b"not a zip");
    assert_eq!(para_texts(&empty), vec![vec![""]]);
}

const ODS: &[u8] = br#"<office:document-content xmlns:office="o" xmlns:table="t" xmlns:text="x"><office:body><office:spreadsheet>
<table:table table:name="Data">
<table:table-row><table:table-cell><text:p>a</text:p></table:table-cell><table:table-cell office:value="3"><text:p></text:p></table:table-cell><table:table-cell table:number-columns-repeated="5"/></table:table-row>
<table:table-row table:number-rows-repeated="2"><table:table-cell table:number-columns-repeated="2"><text:p>x</text:p></table:table-cell></table:table-row>
<table:table-row table:number-rows-repeated="100"><table:table-cell/></table:table-row>
</table:table>
<table:table><table:table-row><table:table-cell><text:p>z</text:p></table:table-cell></table:table-row></table:table>
</office:spreadsheet></office:body></office:document-content>"#;

#[test]
fn ods_sheets_rows_and_repeats() {
    let z = zip_of(&[("content.xml", ODS)]);
    let sheets = odf::parse_spreadsheet(&z);
    assert_eq!(sheets.len(), 2);
    assert_eq!(sheets[0].0, "Data");
    assert_eq!(
        sheets[0].1,
        vec![
            vec!["a".to_string(), "3".to_string()],
            vec!["x".to_string(), "x".to_string()],
            vec!["x".to_string(), "x".to_string()],
        ]
    );
    assert_eq!(sheets[1].0, "Sheet2");
    assert_eq!(odf::parse_spreadsheet_rows(&z), sheets[0].1);
    assert!(odf::parse_spreadsheet(b"nope").is_empty());
}

const ODP: &[u8] = br#"<office:document-content xmlns:office="o" xmlns:draw="d" xmlns:text="t" xmlns:presentation="p"><office:body><office:presentation>
<draw:page draw:name="Intro"><draw:frame><draw:text-box><text:p> Welcome </text:p><text:p></text:p></draw:text-box></draw:frame>
<presentation:notes><draw:page-thumbnail/><draw:frame><draw:text-box><text:p>secret</text:p></draw:text-box></draw:frame></presentation:notes></draw:page>
<draw:page><draw:frame><draw:text-box><text:p>Second</text:p></draw:text-box></draw:frame></draw:page>
</office:presentation></office:body></office:document-content>"#;

#[test]
fn odp_pages_headings_and_notes() {
    let z = zip_of(&[("content.xml", ODP)]);
    let b = odf::parse_presentation(&z);
    assert_eq!(para_texts(&b), vec![vec!["Intro"], vec!["Welcome"], vec!["---"], vec!["Slide 2"], vec!["Second"]]);
    assert!(matches!(b[0], Block::Heading(2, _)));
}
