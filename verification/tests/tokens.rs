//! The token-level parsers: the same results from hand-built token lists as
//! from the text, and the text reader's tokens themselves.

use doc_viewer::package::{rels_map, rels_map_events, workbook_rids_events};
use doc_viewer::wordbody::{parse_body, parse_body_events};
use doc_viewer::xml::{xml_tokens, XmlAttr, XmlEvent, XmlTag};

fn tag(name: &str, attrs: &[(&str, &str)]) -> XmlTag {
    let local = name.rsplit(':').next().unwrap_or(name).to_string();
    XmlTag {
        name: name.to_string(),
        local,
        attrs: attrs.iter().map(|(k, v)| XmlAttr { key: k.to_string(), value: v.to_string() }).collect(),
    }
}

fn end(name: &str) -> XmlEvent {
    let local = name.rsplit(':').next().unwrap_or(name).to_string();
    XmlEvent::End(name.to_string(), local)
}

#[test]
fn relationships_from_tokens() {
    let toks = vec![
        XmlEvent::Start(tag("Relationships", &[])),
        XmlEvent::Empty(tag("Relationship", &[("Id", "rId1"), ("Target", "media/a.png")])),
        XmlEvent::Empty(tag("Relationship", &[("Id", "rId2")])),
        XmlEvent::Other,
        XmlEvent::Start(tag("Relationship", &[("Target", "x"), ("Id", "rId3")])),
        end("Relationship"),
        end("Relationships"),
    ];
    let r = rels_map_events(&toks);
    assert_eq!(r.pairs, vec![("rId1".to_string(), "media/a.png".to_string()), ("rId3".to_string(), "x".to_string())]);
    let text = r#"<Relationships><Relationship Id="rId1" Target="media/a.png"/><Relationship Id="rId2"/><!-- c --><Relationship Target="x" Id="rId3"></Relationship></Relationships>"#;
    assert_eq!(rels_map(text).pairs, r.pairs);
}

#[test]
fn workbook_sheet_ids_from_tokens() {
    let toks = vec![
        XmlEvent::Start(tag("sheets", &[])),
        XmlEvent::Empty(tag("sheet", &[("name", "A"), ("r:id", "rId4")])),
        XmlEvent::Empty(tag("sheet", &[("name", "B")])),
        XmlEvent::Empty(tag("sheet", &[("r:id", "rId2")])),
        end("sheets"),
    ];
    assert_eq!(workbook_rids_events(&toks), vec!["rId4".to_string(), "rId2".to_string()]);
}

#[test]
fn body_from_tokens_matches_text() {
    let text = r#"<w:body><w:p><w:pPr><w:jc w:val="right"/></w:pPr><w:r><w:t>Hi</w:t></w:r></w:p></w:body>"#;
    let toks = xml_tokens(text);
    assert_eq!(toks.len(), 12);
    assert!(matches!(&toks[0], XmlEvent::Start(t) if t.name == "w:body"));
    assert!(matches!(&toks[7], XmlEvent::Text(s) if s == "Hi"));
    let a = parse_body(text);
    let b = parse_body_events(&toks);
    assert_eq!(a.paras.len(), 1);
    assert_eq!(b.paras.len(), 1);
    assert_eq!(a.paras[0].runs[0].text, "Hi");
    assert_eq!(b.paras[0].runs[0].text, "Hi");
    assert_eq!(a.paras[0].align, b.paras[0].align);
}

#[test]
fn tokens_stop_at_an_error() {
    // an end tag with no matching start is an error for the reader
    let toks = xml_tokens("<a>x</b><c/>");
    assert!(toks.len() <= 2);
    assert!(toks.iter().all(|t| !matches!(t, XmlEvent::Eof | XmlEvent::Error)));
}
