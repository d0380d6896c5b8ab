//! Font faces, shaping and the choice of a font per character.

use doc_viewer::text::{shape, FontData, Fonts};

fn be16(v: &mut Vec<u8>, x: u16) {
    v.extend_from_slice(&x.to_be_bytes());
}

fn be32(v: &mut Vec<u8>, x: u32) {
    v.extend_from_slice(&x.to_be_bytes());
}

/// A minimal TrueType face: glyph 0 plus one glyph for each of `A`..`Z`,
/// 2048 units per em, every glyph 600 units wide.
fn tiny_font() -> Vec<u8> {
    let mut cmap = Vec::new();
    be16(&mut cmap, 0);
    be16(&mut cmap, 1);
    be16(&mut cmap, 3);
    be16(&mut cmap, 10);
    be32(&mut cmap, 12);
    be16(&mut cmap, 12);
    be16(&mut cmap, 0);
    be32(&mut cmap, 28);
    be32(&mut cmap, 0);
    be32(&mut cmap, 1);
    be32(&mut cmap, 0x41);
    be32(&mut cmap, 0x5A);
    be32(&mut cmap, 1);

    let mut head = Vec::new();
    be32(&mut head, 0x0001_0000);
    be32(&mut head, 0x0001_0000);
    be32(&mut head, 0);
    be32(&mut head, 0x5F0F_3CF5);
    be16(&mut head, 0);
    be16(&mut head, 2048);
    head.extend_from_slice(&[0u8; 16]);
    for _ in 0..4 {
        be16(&mut head, 0);
    }
    be16(&mut head, 0);
    be16(&mut head, 8);
    be16(&mut head, 2);
    be16(&mut head, 0);
    be16(&mut head, 0);

    let mut hhea = Vec::new();
    be32(&mut hhea, 0x0001_0000);
    be16(&mut hhea, 1600);
    be16(&mut hhea, (-400i16) as u16);
    be16(&mut hhea, 0);
    hhea.extend_from_slice(&[0u8; 24]);
    be16(&mut hhea, 1);

    let mut hmtx = Vec::new();
    be16(&mut hmtx, 600);
    be16(&mut hmtx, 0);
    for _ in 0..26 {
        be16(&mut hmtx, 0);
    }

    let mut maxp = Vec::new();
    be32(&mut maxp, 0x0000_5000);
    be16(&mut maxp, 27);

    let tables: Vec<(&[u8; 4], Vec<u8>)> = vec![(b"cmap", cmap), (b"head", head), (b"hhea", hhea), (b"hmtx", hmtx), (b"maxp", maxp)];
    let mut out = Vec::new();
    be32(&mut out, 0x0001_0000);
    be16(&mut out, tables.len() as u16);
    be16(&mut out, 64);
    be16(&mut out, 2);
    be16(&mut out, 16);
    let mut offset = 12 + 16 * tables.len();
    for (tag, data) in &tables {
        out.extend_from_slice(&tag[..]);
        be32(&mut out, 0);
        be32(&mut out, offset as u32);
        be32(&mut out, data.len() as u32);
        offset += (data.len() + 3) / 4 * 4;
    }
    for (_, data) in &tables {
        out.extend_from_slice(data);
        while out.len() % 4 != 0 {
            out.push(0);
        }
    }
    out
}

#[test]
fn face_metrics_and_coverage() {
    let f = FontData::new(tiny_font());
    assert_eq!(f.units_per_em(), 2048);
    assert!(f.has_char('A'));
    assert!(!f.has_char('a'));
    let cov = f.coverage();
    assert_eq!(cov.len(), 26);
    assert!(cov.contains(&0x5A));
    let junk = FontData::new(vec![1, 2, 3]);
    assert_eq!(junk.units_per_em(), 1000);
    assert!(junk.coverage().is_empty());
    assert_eq!(junk.bytes(), &[1u8, 2, 3][..]);
}

#[test]
fn shaping_maps_characters_to_glyphs() {
    let f = FontData::new(tiny_font());
    let run = shape(&f, "AZ");
    assert_eq!(run.units_per_em, 2048);
    assert_eq!(run.glyphs.len(), 2);
    assert_eq!(run.glyphs[0].glyph_id, 1);
    assert_eq!(run.glyphs[1].glyph_id, 26);
    assert_eq!(run.glyphs[1].cluster, 1);
    assert_eq!(run.glyphs[0].x_advance, 600);
    let none = shape(&FontData::new(Vec::new()), "AZ");
    assert!(none.glyphs.is_empty());
    assert_eq!(none.units_per_em, 1000);
    let junk = FontData::new(vec![7u8; 64]);
    let again = shape(&junk, "AZ");
    assert!(again.glyphs.is_empty());
    assert_eq!(again.units_per_em, junk.units_per_em());
}

#[test]
fn fonts_pick_declared_then_fallback() {
    let fonts = Fonts::new(
        FontData::new(vec![0u8; 4]),
        vec![
            ("My Symbol Font".to_string(), FontData::new(tiny_font())),
            ("Latin".to_string(), FontData::new(tiny_font())),
            ("latin".to_string(), FontData::new(Vec::new())),
        ],
    );
    assert_eq!(fonts.data().len(), 4);
    // declared family, matched without regard to case
    assert_eq!(fonts.idx_for(Some("LATIN"), None, 'A'), 2);
    // a CJK character looks at the East Asian family first
    assert_eq!(fonts.idx_for(Some("Latin"), Some("nothing"), '\u{4E00}'), 0);
    // no declared family: the default does not cover 'A', the first that does wins
    assert_eq!(fonts.idx_for(None, None, 'A'), 1);
    // white space is drawn by the default font
    assert_eq!(fonts.idx_for(Some("Latin"), None, ' '), 2);
    assert_eq!(fonts.idx_for(None, None, ' '), 0);
    // nothing covers it: the script default
    assert_eq!(fonts.idx_for(None, None, '\u{20AC}'), 0);
    // symbols fall back to the symbol font
    assert_eq!(fonts.idx_for(None, None, '\u{25A0}'), 1);
    assert!(fonts.covers(1, 'Q'));
    assert!(!fonts.covers(0, 'Q'));
    assert!(!fonts.covers(9, 'Q'));
    assert_eq!(fonts.get(9).bytes().len(), 0);
}
