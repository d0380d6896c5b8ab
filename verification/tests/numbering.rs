//! List numbering: counter text, definitions and per-list counters.

use doc_viewer::numbering::{
    alpha, bullet_char, fmt_counter, num_fmt, number_paragraph, numbering_fits, parse_numbering_xml, roman, substitute, Counters,
    NumFmt,
};

const NUMBERING: &str = r#"<w:numbering xmlns:w="urn:w">
<w:abstractNum w:abstractNumId="0">
  <w:lvl w:ilvl="0"><w:start w:val="1"/><w:numFmt w:val="decimal"/><w:lvlText w:val="%1."/><w:ind w:left="720" w:hanging="360"/></w:lvl>
  <w:lvl w:ilvl="1"><w:start w:val="1"/><w:numFmt w:val="lowerLetter"/><w:lvlText w:val="%1.%2)"/></w:lvl>
</w:abstractNum>
<w:abstractNum w:abstractNumId="5">
  <w:lvl w:ilvl="0"><w:numFmt w:val="bullet"/><w:lvlText w:val=""/></w:lvl>
  <w:lvl w:ilvl="1"><w:start w:val="4"/><w:numFmt w:val="upperRoman"/><w:lvlText w:val="%2"/></w:lvl>
  <w:lvl w:ilvl="2"><w:numFmt w:val="none"/><w:lvlText w:val=""/></w:lvl>
</w:abstractNum>
<w:num w:numId="1"><w:abstractNumId w:val="0"/></w:num>
<w:num w:numId="2"><w:abstractNumId w:val="5"/></w:num>
</w:numbering>"#;

#[test]
fn counter_text() {
    assert_eq!(fmt_counter(NumFmt::DecimalZero, 5), "05");
    assert_eq!(fmt_counter(NumFmt::DecimalZero, 12), "12");
    assert_eq!(fmt_counter(NumFmt::LowerLetter, 28), "ab");
    assert_eq!(fmt_counter(NumFmt::UpperLetter, 27), "AA");
    assert_eq!(fmt_counter(NumFmt::LowerRoman, 1994), "mcmxciv");
    assert_eq!(fmt_counter(NumFmt::UpperRoman, 4), "IV");
    assert_eq!(fmt_counter(NumFmt::Decimal, -3), "-3");
    assert_eq!(fmt_counter(NumFmt::Bullet, 7), "7");
    assert_eq!(alpha(0, false), "0");
    assert_eq!(alpha(26, true), "Z");
    assert_eq!(roman(0, true), "0");
    assert_eq!(roman(3999, false), "mmmcmxcix");
}

#[test]
fn letters_match_column_names() {
    for v in 1..2000 {
        assert_eq!(alpha(v, true), doc_viewer::sheet::col_letter((v - 1) as usize));
    }
}

#[test]
fn bullets_and_formats() {
    assert_eq!(bullet_char("\u{f0b7}"), "\u{2022}");
    assert_eq!(bullet_char("\u{f0a7}x"), "\u{25aa}");
    assert_eq!(bullet_char("\u{f06f}"), "\u{25cb}");
    assert_eq!(bullet_char(""), "\u{2022}");
    assert_eq!(bullet_char("o"), "o");
    assert_eq!(num_fmt("upperRoman"), NumFmt::UpperRoman);
    assert_eq!(num_fmt("decimalZero"), NumFmt::DecimalZero);
    assert_eq!(num_fmt("cardinalText"), NumFmt::Decimal);
}

#[test]
fn definitions_are_read() {
    let nb = parse_numbering_xml(NUMBERING);
    assert_eq!(nb.abstract_id(1), Some(0));
    assert_eq!(nb.abstract_id(2), Some(5));
    assert_eq!(nb.abstract_id(3), None);
    let l = nb.level(0, 0).expect("level");
    assert_eq!(l.fmt, NumFmt::Decimal);
    assert_eq!(l.text, "%1.");
    assert_eq!(l.ind_left.as_deref(), Some("720"));
    assert_eq!(l.ind_hanging.as_deref(), Some("360"));
    assert_eq!(nb.level(5, 1).map(|l| l.start), Some(4));
    assert!(nb.level(0, 7).is_none());
}

fn marker(nb: &doc_viewer::numbering::Numbering, c: &mut Counters, num: u32, ilvl: u32) -> Option<Option<String>> {
    assert!(numbering_fits(nb, c, num, ilvl));
    number_paragraph(nb, c, num, ilvl).map(|p| p.marker)
}

#[test]
fn paragraphs_are_numbered_in_order() {
    let nb = parse_numbering_xml(NUMBERING);
    let mut c = Counters::new();
    assert_eq!(marker(&nb, &mut c, 1, 0), Some(Some("1.".to_string())));
    assert_eq!(marker(&nb, &mut c, 1, 0), Some(Some("2.".to_string())));
    assert_eq!(marker(&nb, &mut c, 1, 1), Some(Some("2.a)".to_string())));
    assert_eq!(marker(&nb, &mut c, 1, 1), Some(Some("2.b)".to_string())));
    assert_eq!(marker(&nb, &mut c, 1, 0), Some(Some("3.".to_string())));
    assert_eq!(marker(&nb, &mut c, 1, 1), Some(Some("3.a)".to_string())));
    assert_eq!(c.get(1, 0), Some(3));
    assert_eq!(c.get(1, 1), Some(1));
}

#[test]
fn bullets_none_and_undefined_lists() {
    let nb = parse_numbering_xml(NUMBERING);
    let mut c = Counters::new();
    assert_eq!(marker(&nb, &mut c, 2, 0), Some(Some("\u{2022}".to_string())));
    assert_eq!(marker(&nb, &mut c, 2, 1), Some(Some("IV".to_string())));
    assert_eq!(marker(&nb, &mut c, 2, 1), Some(Some("V".to_string())));
    assert_eq!(marker(&nb, &mut c, 2, 2), Some(None));
    assert_eq!(marker(&nb, &mut c, 0, 0), None);
    assert_eq!(marker(&nb, &mut c, 9, 0), None);
    assert_eq!(marker(&nb, &mut c, 1, 4), None);
    assert_eq!(c.get(9, 0), None);
}

#[test]
fn counters_reset_deeper_levels_only() {
    let mut c = Counters::new();
    assert_eq!(c.advance(1, 0, 1), 1);
    assert_eq!(c.advance(1, 1, 1), 1);
    assert_eq!(c.advance(1, 2, 1), 1);
    assert_eq!(c.advance(7, 3, 10), 10);
    assert_eq!(c.advance(1, 1, 1), 2);
    assert_eq!(c.get(1, 2), None);
    assert_eq!(c.get(1, 0), Some(1));
    assert_eq!(c.get(7, 3), Some(10));
}

#[test]
fn substitution_uses_counters_then_starts() {
    let nb = parse_numbering_xml(NUMBERING);
    let mut c = Counters::new();
    c.advance(2, 1, 4);
    assert_eq!(substitute("%2-%1-%9%", 2, 5, &nb, &c), "IV-1-1%");
    assert_eq!(substitute("100%x", 2, 5, &nb, &c), "100%x");
}
