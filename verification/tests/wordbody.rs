//! The body of a Word document: paragraphs, runs, tables, floating drawings
//! and section settings, with lengths as written.

use doc_viewer::color::Color;
use std::io::Write;

use doc_viewer::package::rels_map;
use doc_viewer::wordbody::{parse_body, word_picture, BlockRef, VMerge};
use doc_viewer::wordstyle::{FontSize, ParaAlign};

const BODY: &str = r#"<w:document><w:body>
<w:p><w:pPr><w:pStyle w:val="Heading1"/><w:jc w:val="center"/><w:spacing w:before="240" w:after="x" w:line="360" w:lineRule="auto"/>
<w:ind w:start="720" w:hanging="360" w:end="100"/><w:numPr><w:ilvl w:val="1"/><w:numId w:val="3"/></w:numPr>
<w:pBdr><w:top w:val="single" w:sz="8" w:color="FF0000"/></w:pBdr><w:shd w:fill="auto"/><w:keepNext/>
<w:tabs><w:tab w:val="right" w:pos="9000"/><w:tab w:val="center" w:pos="bad"/></w:tabs></w:pPr>
<w:r><w:rPr><w:b/><w:i w:val="0"/><w:sz w:val="28"/><w:color w:val="00FF00"/><w:u w:val="none"/><w:vertAlign w:val="superscript"/><w:highlight w:val="yellow"/><w:rStyle w:val="Strong"/></w:rPr><w:t>Hello &amp; </w:t><w:tab/><w:t>world</w:t><w:br/></w:r>
<w:r><w:t></w:t></w:r>
<w:ins><w:r><w:rPr><w:shd w:fill="FFFF00"/></w:rPr><w:t>new</w:t></w:r></w:ins>
<w:r><w:rPrChange><w:rPr><w:b/></w:rPr></w:rPrChange><w:t>x</w:t></w:r>
<w:r><w:br w:type="page"/></w:r>
</w:p>
<w:tbl><w:tblPr><w:jc w:val="center"/><w:tblInd w:w="144"/><w:tblBorders><w:top w:val="single" w:sz="4"/><w:insideV w:val="nil"/></w:tblBorders></w:tblPr>
<w:tblGrid><w:gridCol w:w="3000"/><w:gridCol w:w="wide"/><w:gridCol w:w="2000"/></w:tblGrid>
<w:tr><w:trPr><w:trHeight w:val="400"/><w:tblHeader/></w:trPr>
<w:tc><w:tcPr><w:gridSpan w:val="2"/><w:vMerge w:val="restart"/><w:vAlign w:val="bottom"/><w:shd w:fill="CCCCCC"/><w:tcBorders><w:left w:val="double" w:color="0000FF"/></w:tcBorders></w:tcPr><w:p><w:r><w:t>A1</w:t></w:r></w:p></w:tc>
<w:tc><w:tcPr><w:vMerge/><w:gridSpan w:val="0"/></w:tcPr><w:tbl><w:tr><w:tc><w:p><w:r><w:t>inner</w:t></w:r></w:p></w:tc></w:tr></w:tbl></w:tc>
</w:tr></w:tbl>
<w:p><w:r><w:drawing><wp:anchor behindDoc="1"><wp:positionH><wp:posOffset> 952500 </wp:posOffset></wp:positionH><wp:positionV><wp:posOffset>oops</wp:posOffset></wp:positionV>
<wp:extent cx="190500" cy="95250"/><a:graphic><a:graphicData><wpg:wgp><wpg:grpSpPr><a:xfrm><a:off x="100" y="200"/><a:ext cx="1000" cy="2000"/><a:chOff x="0" y="0"/><a:chExt cx="500" cy="500"/></a:xfrm></wpg:grpSpPr>
<wps:wsp><wps:spPr><a:xfrm flipV="1"><a:off x="10" y="20"/><a:ext cx="30" cy="40"/></a:xfrm><a:prstGeom prst="roundRect"/><a:solidFill><a:srgbClr val="112233"/></a:solidFill><a:ln><a:solidFill><a:schemeClr val="auto"/></a:solidFill></a:ln></wps:spPr>
<wps:txbx><w:txbxContent><w:p><w:r><w:t>boxed</w:t></w:r></w:p></w:txbxContent></wps:txbx></wps:wsp>
</wpg:wgp><wps:cxnSp><wps:spPr><a:prstGeom prst="line"/></wps:spPr></wps:cxnSp></a:graphicData></a:graphic></wp:anchor></w:drawing><w:t>after</w:t></w:r></w:p>
<mc:AlternateContent><mc:Choice><w:p><w:r><w:t>choice</w:t></w:r></w:p></mc:Choice><mc:Fallback><w:p><w:r><w:t>fallback</w:t></w:r></w:p></mc:Fallback></mc:AlternateContent>
<w:sectPr><w:headerReference w:type="default" r:id="rId7"/><w:footerReference w:type="first" r:id="rId8"/><w:footerReference r:id="rId9"/><w:titlePg/>
<w:pgSz w:w="11906" w:h="big"/><w:pgMar w:top="1440" w:left="1800" w:footer="708"/></w:sectPr>
</w:body></w:document>"#;

#[test]
fn paragraphs_and_runs() {
    let d = parse_body(BODY);
    let p = &d.paras[0];
    assert_eq!(p.p_style.as_deref(), Some("Heading1"));
    assert_eq!(p.align, Some(ParaAlign::Center));
    assert_eq!(p.spc_before.as_deref(), Some("240"));
    assert_eq!(p.spc_after, None);
    assert_eq!(p.line_mult.as_deref(), Some("360"));
    assert_eq!(p.line_exact, None);
    assert_eq!(p.ind_left.as_deref(), Some("720"));
    assert_eq!(p.ind_hanging.as_deref(), Some("360"));
    assert_eq!(p.ind_right.as_deref(), Some("100"));
    assert_eq!((p.num_id, p.num_ilvl), (Some(3), 1));
    assert!(p.pbdr.top && !p.pbdr.bottom);
    assert_eq!(p.pbdr.color, Color::rgb(255, 0, 0));
    assert_eq!(p.pbdr.size.as_deref(), Some("8"));
    assert_eq!(p.shd, None);
    assert!(p.keep_lines);
    assert_eq!(p.tab_stops, vec![("9000".to_string(), ParaAlign::Right)]);
    assert!(p.page_break_after);
    // the empty run is dropped; the revision snapshot's bold is skipped
    let texts: Vec<&str> = p.runs.iter().map(|r| r.text.as_str()).collect();
    assert_eq!(texts, vec!["Hello & \tworld\n", "new", "x"]);
    let r = &p.runs[0];
    assert_eq!(r.direct.bold, Some(true));
    assert_eq!(r.direct.italic, Some(false));
    assert!(matches!(&r.direct.size, Some(FontSize::HalfPoints(s)) if s == "28"));
    assert_eq!(r.direct.color, Some(Color::rgb(0, 255, 0)));
    assert_eq!(r.direct.underline, Some(false));
    assert_eq!(r.direct.vert_align, Some(1));
    assert_eq!(r.direct.highlight, Some(Color::rgb(255, 255, 0)));
    assert_eq!(r.r_style.as_deref(), Some("Strong"));
    assert_eq!(p.runs[1].direct.highlight, Some(Color::rgb(0xFF, 0xFF, 0)));
    assert_eq!(p.runs[2].direct.bold, None);
}

#[test]
fn tables_nest_through_cells() {
    let d = parse_body(BODY);
    assert_eq!(d.body, vec![BlockRef::Para(0), BlockRef::Table(1), BlockRef::Para(4), BlockRef::Para(5)]);
    let t = &d.tables[1];
    assert_eq!(t.align, ParaAlign::Center);
    assert_eq!(t.ind.as_deref(), Some("144"));
    assert_eq!(t.grid, vec!["3000".to_string(), "2000".to_string()]);
    assert!(t.borders.top.on && !t.borders.inside_v.on && !t.borders.left.on);
    assert_eq!(t.borders.top.size.as_deref(), Some("4"));
    let row = &t.rows[0];
    assert_eq!(row.min_h.as_deref(), Some("400"));
    assert!(row.is_header);
    let c0 = &row.cells[0];
    assert_eq!((c0.grid_span, c0.vmerge, c0.valign), (2, VMerge::Restart, 2));
    assert_eq!(c0.shd, Some(Color::rgb(0xCC, 0xCC, 0xCC)));
    assert!(c0.borders.left.on);
    assert_eq!(c0.borders.left.color, Color::rgb(0, 0, 255));
    assert_eq!(c0.blocks, vec![BlockRef::Para(1)]);
    assert_eq!(d.paras[1].runs[0].text, "A1");
    let c1 = &row.cells[1];
    assert_eq!((c1.grid_span, c1.vmerge), (1, VMerge::Continue));
    assert_eq!(c1.blocks, vec![BlockRef::Table(0)]);
    assert_eq!(d.tables[0].rows[0].cells[0].blocks, vec![BlockRef::Para(2)]);
    assert_eq!(d.paras[2].runs[0].text, "inner");
}

#[test]
fn floating_drawings_keep_their_groups() {
    let d = parse_body(BODY);
    let p = &d.paras[4];
    assert_eq!(p.runs[0].text, "after");
    assert_eq!(p.floats.len(), 1);
    let f = &p.floats[0];
    assert!(f.behind && f.grouped);
    assert_eq!(f.off_x.as_deref(), Some("952500"));
    assert_eq!(f.off_y, None);
    assert_eq!((f.img_cx.as_deref(), f.img_cy.as_deref()), (Some("190500"), Some("95250")));
    assert_eq!(f.shapes.len(), 2);
    let s = &f.shapes[0];
    assert_eq!((s.x.as_deref(), s.y.as_deref(), s.w.as_deref(), s.h.as_deref()), (Some("10"), Some("20"), Some("30"), Some("40")));
    assert!(s.flip_v && !s.flip_h && s.rounded && !s.is_line);
    assert_eq!(s.fill, Some(Color::rgb(0x11, 0x22, 0x33)));
    assert_eq!(s.outline, Some(Color::rgb(0, 0, 0)));
    assert_eq!(s.groups.len(), 1);
    assert_eq!(s.groups[0].off_x.as_deref(), Some("100"));
    assert_eq!(s.groups[0].ch_cx.as_deref(), Some("500"));
    assert_eq!(s.img_cx.as_deref(), Some("190500"));
    assert_eq!(s.blocks, vec![BlockRef::Para(3)]);
    assert_eq!(d.paras[3].runs[0].text, "boxed");
    // the connector comes after the group closed
    assert!(f.shapes[1].is_line);
    assert!(f.shapes[1].groups.is_empty());
    // mc:Fallback is skipped, mc:Choice read
    assert_eq!(d.paras[5].runs[0].text, "choice");
    assert_eq!(d.paras.len(), 6);
}

#[test]
fn section_settings() {
    let d = parse_body(BODY);
    assert_eq!(d.hdr_refs, vec![("default".to_string(), "rId7".to_string())]);
    assert_eq!(d.ftr_refs, vec![("first".to_string(), "rId8".to_string())]);
    assert!(d.title_pg);
    assert_eq!(d.page_w.as_deref(), Some("11906"));
    assert_eq!(d.page_h, None);
    assert_eq!(d.margin_t.as_deref(), Some("1440"));
    assert_eq!(d.margin_l.as_deref(), Some("1800"));
    assert_eq!(d.margin_r, None);
    assert_eq!(d.footer_dist.as_deref(), Some("708"));
    let empty = parse_body("");
    assert!(empty.paras.is_empty() && empty.body.is_empty() && !empty.title_pg);
}

fn crc32(data: &[u8]) -> u32 {
    let mut crc: u32 = 0xFFFF_FFFF;
    for &b in data {
        crc ^= b as u32;
        for _ in 0..8 {
            let mask = (crc & 1).wrapping_neg();
            crc = (crc >> 1) ^ (0xEDB8_8320 & mask);
        }
    }
    !crc
}

fn adler32(data: &[u8]) -> u32 {
    let (mut a, mut b) = (1u32, 0u32);
    for &x in data {
        a = (a + x as u32) % 65521;
        b = (b + a) % 65521;
    }
    (b << 16) | a
}

fn chunk(out: &mut Vec<u8>, kind: &[u8; 4], data: &[u8]) {
    out.extend_from_slice(&(data.len() as u32).to_be_bytes());
    let mut body = kind.to_vec();
    body.extend_from_slice(data);
    out.extend_from_slice(&body);
    out.extend_from_slice(&crc32(&body).to_be_bytes());
}

/// A grey `w`×`h` PNG.
fn grey_png(w: u32, h: u32) -> Vec<u8> {
    let mut raw = Vec::new();
    for _ in 0..h {
        raw.push(0);
        for _ in 0..w {
            raw.push(128);
        }
    }
    let mut z = vec![0x78, 0x01, 0x01];
    let len = raw.len() as u16;
    z.extend_from_slice(&len.to_le_bytes());
    z.extend_from_slice(&(!len).to_le_bytes());
    z.extend_from_slice(&raw);
    z.extend_from_slice(&adler32(&raw).to_be_bytes());
    let mut png = vec![0x89, b'P', b'N', b'G', b'\r', b'\n', 0x1a, b'\n'];
    let mut ihdr = Vec::new();
    ihdr.extend_from_slice(&w.to_be_bytes());
    ihdr.extend_from_slice(&h.to_be_bytes());
    ihdr.extend_from_slice(&[8, 0, 0, 0, 0]);
    chunk(&mut png, b"IHDR", &ihdr);
    chunk(&mut png, b"IDAT", &z);
    chunk(&mut png, b"IEND", &[]);
    png
}

fn zip_of(entries: &[(&str, &[u8])]) -> Vec<u8> {
    let mut w = zip::ZipWriter::new(std::io::Cursor::new(Vec::new()));
    let opts = zip::write::SimpleFileOptions::default().compression_method(zip::CompressionMethod::Stored);
    for (name, data) in entries {
        w.start_file(*name, opts).unwrap();
        w.write_all(data).unwrap();
    }
    w.finish().unwrap().into_inner()
}

#[test]
fn pictures_resolve_and_spacers_drop() {
    let big = grey_png(3, 4);
    let tiny = grey_png(2, 5);
    let pkg = zip_of(&[("word/media/a.png", &big), ("word/media/b.png", &tiny)]);
    let rels = rels_map(
        r#"<Relationships><Relationship Id="rA" Target="media/a.png"/><Relationship Id="rB" Target="media/b.png"/><Relationship Id="rC" Target="media/none.png"/></Relationships>"#,
    );
    let img = word_picture(&pkg, &rels, "rA").expect("picture");
    assert_eq!((img.width, img.height), (3, 4));
    assert_eq!(img.rgba.len(), 48);
    assert!(word_picture(&pkg, &rels, "rB").is_none());
    assert!(word_picture(&pkg, &rels, "rC").is_none());
    assert!(word_picture(&pkg, &rels, "rZ").is_none());
}
