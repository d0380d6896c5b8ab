//! Spreadsheet layout layer and presentation decks from OOXML packages.

use std::io::Write;

use doc_viewer::color::Color;
use doc_viewer::pptx::{parse_deck, parse_presentation, parse_slide};
use doc_viewer::package::Rels;
use doc_viewer::sheet::{Align, HAlign};
use doc_viewer::xlsx::{color_ref, parse, parse_styles, parse_worksheet, sheet_names};

fn zip_of(entries: &[(&str, &[u8])]) -> Vec<u8> {
    let mut w = zip::ZipWriter::new(std::io::Cursor::new(Vec::new()));
    let opts = zip::write::SimpleFileOptions::default().compression_method(zip::CompressionMethod::Stored);
    for (name, data) in entries {
        w.start_file(*name, opts).unwrap();
        w.write_all(data).unwrap();
    }
    w.finish().unwrap().into_inner()
}

const SHEET: &str = r#"<worksheet><dimension ref="A1:C4"/>
<cols><col min="2" max="3" width="20.5"/><col min="5"/><col width="9"/><col min="4" max="4" width="wide"/></cols>
<sheetData><row r="1" ht="30"><c r="A1" s="2"/><c r="E7"/></row><row r="9"/><row ht="12"/><row r="2" ht="tall"/><row r="3" ht="1e1"/></sheetData>
<mergeCells><mergeCell ref="B2:A1"/></mergeCells></worksheet>"#;

#[test]
fn worksheet_geometry() {
    let g = parse_worksheet(SHEET);
    assert_eq!(g.col_ranges, vec![(2, 3, "20.5".to_string()), (1, 1, "9".to_string())]);
    assert_eq!(g.row_heights, vec![(1, "30".to_string()), (3, "1e1".to_string())]);
    assert_eq!(g.merges, vec![(0, 0, 1, 1)]);
    assert_eq!(g.cell_xf, vec![(0, 0, 2)]);
    assert_eq!((g.n_rows, g.n_cols), (9, 5));
}

const STYLES: &str = r#"<styleSheet>
<numFmts><numFmt numFmtId="164" formatCode="0.000"/></numFmts>
<fonts><font><b/><sz val="14"/><color rgb="FF112233"/></font><font><b val="0"/><color theme="4" tint="0.5"/></font></fonts>
<fills><fill><patternFill patternType="none"/></fill><fill><patternFill patternType="solid"><fgColor rgb="00FF00"/></patternFill></fill></fills>
<borders><border><left style="thin"/><right style="none"/><top/><bottom style="double"/></border><border/></borders>
<cellXfs><xf numFmtId="164" fontId="0" fillId="1" borderId="0"><alignment horizontal="center"/></xf><xf numFmtId="14" fontId="1" fillId="0" borderId="1"/><xf numFmtId="3" fontId="9" fillId="7" borderId="9"/></cellXfs>
</styleSheet>"#;

#[test]
fn cell_formats() {
    let xfs = parse_styles(STYLES);
    assert_eq!(xfs.len(), 3);
    assert_eq!(xfs[0].fmt_code, "0.000");
    assert!(xfs[0].font.bold);
    assert_eq!(xfs[0].font.size.as_deref(), Some("14"));
    assert_eq!(xfs[0].font.color.as_ref().map(|c| c.base), Some(Color::rgb(0x11, 0x22, 0x33)));
    assert_eq!(xfs[0].fill.as_ref().map(|c| c.base), Some(Color::rgb(0, 255, 0)));
    let b = xfs[0].border;
    assert!(b.left && !b.right && !b.top && b.bottom);
    assert_eq!(xfs[0].h_align, Some(HAlign::Center));
    assert_eq!(xfs[1].fmt_code, "m/d/yyyy");
    assert!(!xfs[1].font.bold);
    let c = xfs[1].font.color.as_ref().unwrap();
    assert_eq!((c.base, c.tint.as_deref()), (Color::rgb(0x4f, 0x81, 0xbd), Some("0.5")));
    assert!(xfs[1].fill.is_none());
    assert_eq!(xfs[2].fmt_code, "#,##0");
    assert!(!xfs[2].font.bold && xfs[2].fill.is_none() && xfs[2].h_align.is_none());
}

#[test]
fn sheet_layout_through_the_package() {
    let wb = br#"<workbook><sheets><sheet r:id="rId1"/></sheets></workbook>"#;
    let rels = br#"<Relationships><Relationship Id="rId1" Target="worksheets/sheet1.xml"/></Relationships>"#;
    let z = zip_of(&[
        ("xl/workbook.xml", wb),
        ("xl/_rels/workbook.xml.rels", rels),
        ("xl/worksheets/sheet1.xml", SHEET.as_bytes()),
        ("xl/styles.xml", STYLES.as_bytes()),
    ]);
    let p = parse(&z, 0);
    assert_eq!((p.geom.n_rows, p.geom.n_cols), (9, 5));
    assert_eq!(p.xfs.len(), 3);
    let q = parse(&z, 1);
    assert_eq!((q.geom.n_rows, q.geom.n_cols), (0, 0));
    assert_eq!(q.xfs.len(), 3);
    let r = parse(b"junk", 0);
    assert!(r.xfs.is_empty() && r.geom.merges.is_empty());
}

#[test]
fn color_elements() {
    let xfs = parse_styles(r#"<styleSheet><fonts><font><color rgb=" FFAABBCC "/></font><font><color rgb="XYZ" theme="1"/></font><font><color indexed="8"/></font></fonts><cellXfs><xf fontId="0"/><xf fontId="1"/><xf fontId="2"/></cellXfs></styleSheet>"#);
    assert_eq!(xfs[0].font.color.as_ref().map(|c| c.base), Some(Color::rgb(0xaa, 0xbb, 0xcc)));
    assert_eq!(xfs[1].font.color.as_ref().map(|c| c.base), Some(Color::black()));
    assert!(xfs[2].font.color.is_none());
    let _ = color_ref;
}

const PRES: &[u8] = br#"<p:presentation><p:sldIdLst><p:sldId id="256" r:id="rId2"/><p:sldId id="257" r:id="rId3"/><p:sldId id="258" r:id="rId9"/></p:sldIdLst><p:sldSz cx="12192000" cy="6858000"/></p:presentation>"#;

const SLIDE: &[u8] = br#"<p:sld><p:cSld><p:spTree>
<p:sp><p:spPr><a:xfrm><a:off x="100" y="200"/><a:ext cx="300" cy="400"/><a:ext cx="n/a"/></a:xfrm><a:solidFill><a:srgbClr val="FF0000"/></a:solidFill></p:spPr>
<p:txBody><a:p><a:pPr algn="ctr"/><a:r><a:rPr sz="2400" b="1"><a:solidFill><a:srgbClr val="00FF00"/></a:solidFill></a:rPr><a:t>Hi &amp; bye</a:t></a:r><a:r><a:t></a:t></a:r></a:p><a:p><a:r><a:t>plain</a:t></a:r></a:p></p:txBody></p:sp>
<p:pic><p:blipFill><a:blip r:embed="rIdImg"/></p:blipFill></p:pic>
</p:spTree></p:cSld></p:sld>"#;

#[test]
fn presentation_sizes_and_order() {
    let p = parse_presentation(std::str::from_utf8(PRES).unwrap());
    assert_eq!(p.cx.as_deref(), Some("12192000"));
    assert_eq!(p.cy.as_deref(), Some("6858000"));
    assert_eq!(p.rids, vec!["rId2".to_string(), "rId3".to_string(), "rId9".to_string()]);
}

#[test]
fn slide_shapes_and_text() {
    let rels = Rels { pairs: Vec::new() };
    let shapes = parse_slide(std::str::from_utf8(SLIDE).unwrap(), b"", &rels, "ppt/slides");
    assert_eq!(shapes.len(), 2);
    let s = &shapes[0];
    assert_eq!((s.x.as_deref(), s.y.as_deref(), s.cx.as_deref(), s.cy.as_deref()), (Some("100"), Some("200"), Some("300"), Some("400")));
    assert_eq!(s.fill, Some(Color::rgb(255, 0, 0)));
    assert_eq!(s.paras.len(), 2);
    assert_eq!(s.paras[0].align, Align::Center);
    assert_eq!(s.paras[0].runs.len(), 1);
    let r = &s.paras[0].runs[0];
    assert_eq!((r.text.as_str(), r.bold, r.color), ("Hi & bye", true, Color::rgb(0, 255, 0)));
    assert_eq!(r.size.as_deref(), Some("2400"));
    assert_eq!(s.paras[1].align, Align::Left);
    assert_eq!(s.paras[1].runs[0].color, Color::black());
    assert!(shapes[1].image.is_none());
}

#[test]
fn decks_through_the_package() {
    let pres_rels = br#"<Relationships><Relationship Id="rId2" Target="slides/slide1.xml"/><Relationship Id="rId3" Target="slides/missing.xml"/></Relationships>"#;
    let z = zip_of(&[
        ("ppt/presentation.xml", PRES),
        ("ppt/_rels/presentation.xml.rels", pres_rels),
        ("ppt/slides/slide1.xml", SLIDE),
    ]);
    let d = parse_deck(&z);
    assert_eq!(d.slides.len(), 1);
    assert_eq!(d.slides[0].len(), 2);
    assert_eq!(d.cx.as_deref(), Some("12192000"));
    let e = parse_deck(b"nothing");
    assert!(e.slides.is_empty() && e.cx.is_none());
}

#[test]
fn workbook_sheet_names_in_order() {
    let wb = br#"<?xml version="1.0" encoding="UTF-8"?>
<workbook xmlns="http://schemas.openxmlformats.org/spreadsheetml/2006/main" xmlns:r="http://schemas.openxmlformats.org/officeDocument/2006/relationships">
<sheets><sheet name="First" sheetId="1" r:id="rId1"/><sheet name="Second" sheetId="2" r:id="rId2"/></sheets></workbook>"#;
    let rels = br#"<?xml version="1.0" encoding="UTF-8"?>
<Relationships xmlns="http://schemas.openxmlformats.org/package/2006/relationships">
<Relationship Id="rId1" Type="http://schemas.openxmlformats.org/officeDocument/2006/relationships/worksheet" Target="worksheets/sheet1.xml"/>
<Relationship Id="rId2" Type="http://schemas.openxmlformats.org/officeDocument/2006/relationships/worksheet" Target="worksheets/sheet2.xml"/>
</Relationships>"#;
    let sheet = br#"<worksheet xmlns="http://schemas.openxmlformats.org/spreadsheetml/2006/main"><sheetData/></worksheet>"#;
    let pkg = br#"<?xml version="1.0" encoding="UTF-8"?>
<Relationships xmlns="http://schemas.openxmlformats.org/package/2006/relationships">
<Relationship Id="rId1" Type="http://schemas.openxmlformats.org/officeDocument/2006/relationships/officeDocument" Target="xl/workbook.xml"/>
</Relationships>"#;
    let bytes = zip_of(&[
        ("_rels/.rels", &pkg[..]),
        ("xl/workbook.xml", &wb[..]),
        ("xl/_rels/workbook.xml.rels", &rels[..]),
        ("xl/worksheets/sheet1.xml", &sheet[..]),
        ("xl/worksheets/sheet2.xml", &sheet[..]),
    ]);
    assert_eq!(sheet_names(&bytes), vec!["First".to_string(), "Second".to_string()]);
    assert!(sheet_names(b"not a zip").is_empty());
}
