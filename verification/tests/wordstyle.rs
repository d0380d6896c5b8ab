//! Word style tables: reading `styles.xml` and resolving run and paragraph
//! formatting through `basedOn` chains.

use doc_viewer::color::Color;
use doc_viewer::wordstyle::{builtin_style_exec, parse_styles_xml, FontSize, ParaAlign, RPr, StyleKind};

const STYLES: &str = r#"<w:styles>
<w:docDefaults><w:rPrDefault><w:rPr><w:sz w:val="22"/><w:color w:val="auto"/></w:rPr></w:rPrDefault>
<w:pPrDefault><w:pPr><w:jc w:val="both"/></w:pPr></w:pPrDefault></w:docDefaults>
<w:style w:type="paragraph" w:styleId="Normal"><w:rPr><w:sz w:val="24"/></w:rPr></w:style>
<w:style w:type="paragraph" w:styleId="Heading1"><w:basedOn w:val="Normal"/><w:pPr><w:jc w:val="center"/></w:pPr><w:rPr><w:b/><w:sz w:val="32"/><w:color w:val="2F5496"/></w:rPr></w:style>
<w:style w:type="paragraph" w:styleId="Quiet"><w:basedOn w:val="Heading1"/><w:rPr><w:b w:val="0"/></w:rPr></w:style>
<w:style w:type="character" w:styleId="Strong"><w:rPr><w:b w:val="true"/></w:rPr></w:style>
<w:style w:type="paragraph" w:styleId="LoopA"><w:basedOn w:val="LoopB"/></w:style>
<w:style w:type="paragraph" w:styleId="LoopB"><w:basedOn w:val="LoopA"/><w:rPr><w:sz w:val="big"/></w:rPr></w:style>
<w:style w:type="paragraph"><w:rPr><w:b/></w:rPr></w:style>
</w:styles>"#;

fn half_points(r: &RPr) -> Option<String> {
    match &r.size {
        Some(FontSize::HalfPoints(s)) => Some(s.clone()),
        _ => None,
    }
}

#[test]
fn reads_defaults_and_styles() {
    let t = parse_styles_xml(STYLES);
    assert_eq!(half_points(&t.default_rpr).as_deref(), Some("22"));
    assert_eq!(t.default_rpr.color, Some(Color::black()));
    assert_eq!(t.default_align, Some(ParaAlign::Justify));
    // the style without an id is dropped
    let ids: Vec<&str> = t.styles.iter().map(|(id, _)| id.as_str()).collect();
    assert_eq!(ids, vec!["Normal", "Heading1", "Quiet", "Strong", "LoopA", "LoopB"]);
    let h1 = t.get("Heading1").unwrap();
    assert_eq!(h1.kind, StyleKind::Paragraph);
    assert_eq!(h1.based_on.as_deref(), Some("Normal"));
    assert_eq!(h1.align, Some(ParaAlign::Center));
    assert_eq!(h1.rpr.bold, Some(true));
    assert_eq!(h1.rpr.color, Some(Color::rgb(0x2F, 0x54, 0x96)));
    assert_eq!(t.get("Strong").unwrap().kind, StyleKind::Character);
    assert_eq!(t.get("Quiet").unwrap().rpr.bold, Some(false));
    // a size that is not a number is ignored
    assert!(t.get("LoopB").unwrap().rpr.size.is_none());
    assert!(t.get("Missing").is_none());
}

#[test]
fn chains_follow_based_on_and_stop_at_cycles() {
    let t = parse_styles_xml(STYLES);
    assert_eq!(t.style_chain("Quiet"), vec!["Quiet", "Heading1", "Normal"]);
    assert_eq!(t.style_chain("LoopA"), vec!["LoopA", "LoopB"]);
    assert_eq!(t.style_chain("Nowhere"), vec!["Nowhere"]);
}

#[test]
fn run_formatting_resolves_in_layers() {
    let t = parse_styles_xml(STYLES);
    let plain = RPr::none();
    let r = t.resolve_run_rpr(None, None, &plain);
    assert_eq!(half_points(&r).as_deref(), Some("22"));
    assert_eq!(r.bold, None);
    let r = t.resolve_run_rpr(Some("Heading1"), None, &plain);
    assert_eq!(half_points(&r).as_deref(), Some("32"));
    assert_eq!(r.bold, Some(true));
    // the derived style's own value beats its base's
    let r = t.resolve_run_rpr(Some("Quiet"), None, &plain);
    assert_eq!(r.bold, Some(false));
    assert_eq!(half_points(&r).as_deref(), Some("32"));
    // a character style lies over the paragraph style
    let r = t.resolve_run_rpr(Some("Quiet"), Some("Strong"), &plain);
    assert_eq!(r.bold, Some(true));
    // direct formatting wins
    let mut direct = RPr::none();
    direct.bold = Some(false);
    direct.italic = Some(true);
    let r = t.resolve_run_rpr(Some("Heading1"), Some("Strong"), &direct);
    assert_eq!(r.bold, Some(false));
    assert_eq!(r.italic, Some(true));
    assert_eq!(r.color, Some(Color::rgb(0x2F, 0x54, 0x96)));
}

#[test]
fn built_in_headings_apply_without_a_definition() {
    let t = parse_styles_xml("<w:styles/>");
    let r = t.resolve_run_rpr(Some("Heading2"), None, &RPr::none());
    assert_eq!(r.bold, Some(true));
    assert!(matches!(r.size, Some(FontSize::Px(20))));
    assert_eq!(t.resolve_para_align(Some("Title"), None), ParaAlign::Center);
    assert!(matches!(builtin_style_exec("Heading6"), Some((RPr { bold: Some(true), size: None, .. }, None))));
    assert!(builtin_style_exec("Heading7").is_none());
}

#[test]
fn paragraph_alignment_resolves() {
    let t = parse_styles_xml(STYLES);
    assert_eq!(t.resolve_para_align(None, None), ParaAlign::Justify);
    assert_eq!(t.resolve_para_align(Some("Quiet"), None), ParaAlign::Center);
    assert_eq!(t.resolve_para_align(Some("Normal"), None), ParaAlign::Justify);
    assert_eq!(t.resolve_para_align(Some("Quiet"), Some(ParaAlign::Right)), ParaAlign::Right);
    let empty = parse_styles_xml("");
    assert_eq!(empty.resolve_para_align(Some("Normal"), None), ParaAlign::Left);
}
