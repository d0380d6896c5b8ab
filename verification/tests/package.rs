//! Package paths, relationship tables and workbook sheets.

use std::io::Write;

use doc_viewer::package::{read_part_text, rels_map, resolve_rel, sheet_part, sheet_path, workbook_rids};

fn zip_of(entries: &[(&str, &[u8])]) -> Vec<u8> {
    let mut w = zip::ZipWriter::new(std::io::Cursor::new(Vec::new()));
    let opts = zip::write::SimpleFileOptions::default().compression_method(zip::CompressionMethod::Stored);
    for (name, data) in entries {
        w.start_file(*name, opts).unwrap();
        w.write_all(data).unwrap();
    }
    w.finish().unwrap().into_inner()
}

#[test]
fn relationship_targets() {
    assert_eq!(resolve_rel("word", "media/image1.png"), "word/media/image1.png");
    assert_eq!(resolve_rel("ppt/slides", "../media/a.png"), "ppt/media/a.png");
    assert_eq!(resolve_rel("x", "/abs/p.xml"), "abs/p.xml");
    assert_eq!(resolve_rel("a/b/", "./c//d"), "a/b/c/d");
    assert_eq!(resolve_rel("", "../../x"), "x");
    assert_eq!(resolve_rel("word", ".."), "");
}

#[test]
fn relationship_table_last_wins() {
    let rels = rels_map(
        r#"<Relationships><Relationship Id="rId1" Target="worksheets/sheet1.xml"/><Relationship Id="rId2" Target="b.xml"></Relationship><Relationship Id="rId1" Target="other.xml"/><Relationship Target="x"/></Relationships>"#,
    );
    assert_eq!(rels.get("rId1").as_deref(), Some("other.xml"));
    assert_eq!(rels.get("rId2").as_deref(), Some("b.xml"));
    assert_eq!(rels.get("rId9"), None);
    assert_eq!(rels.pairs.len(), 3);
}

#[test]
fn workbook_sheet_ids() {
    let rids = workbook_rids(r#"<workbook><sheets><sheet name="A" sheetId="1" r:id="rId1"/><sheet name="B" r:id="rId2"/><sheet name="C"/></sheets></workbook>"#);
    assert_eq!(rids, vec!["rId1".to_string(), "rId2".to_string()]);
    assert_eq!(sheet_part("worksheets/sheet1.xml"), "xl/worksheets/sheet1.xml");
    assert_eq!(sheet_part("/xl/ws.xml"), "xl/ws.xml");
}

#[test]
fn sheet_paths_through_the_package() {
    let wb = br#"<workbook><sheets><sheet name="A" r:id="rId3"/><sheet name="B" r:id="rId4"/></sheets></workbook>"#;
    let rels = br#"<Relationships><Relationship Id="rId3" Target="worksheets/sheet1.xml"/><Relationship Id="rId4" Target="/xl/worksheets/other.xml"/></Relationships>"#;
    let z = zip_of(&[("xl/workbook.xml", wb), ("xl/_rels/workbook.xml.rels", rels)]);
    assert_eq!(sheet_path(&z, 0).as_deref(), Some("xl/worksheets/sheet1.xml"));
    assert_eq!(sheet_path(&z, 1).as_deref(), Some("xl/worksheets/other.xml"));
    assert_eq!(sheet_path(&z, 2), None);
    assert_eq!(sheet_path(b"not a zip", 0), None);
    assert_eq!(read_part_text(&z, "xl/workbook.xml").map(|s| s.len()), Some(wb.len()));
    assert_eq!(read_part_text(&z, "missing.xml"), None);
    let bad = zip_of(&[("x.xml", b"\xff\xfe")]);
    assert_eq!(read_part_text(&bad, "x.xml"), None);
}
