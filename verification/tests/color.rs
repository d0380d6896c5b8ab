//! Colours of the document formats.

use doc_viewer::color::{drawing_color, highlight_color, parse_hex_color, theme_color, word_color, Color, FontId};

#[test]
fn constructors() {
    assert_eq!(Color::rgb(1, 2, 3), Color { r: 1, g: 2, b: 3, a: 255 });
    assert_eq!(Color::rgba(1, 2, 3, 4), Color { r: 1, g: 2, b: 3, a: 4 });
    assert_eq!(Color::black(), Color::rgb(0, 0, 0));
    assert_eq!(Color::white(), Color::rgb(255, 255, 255));
    assert_eq!(FontId(3), FontId(3));
}

#[test]
fn hex_colors() {
    assert_eq!(parse_hex_color("#1A2b3C"), Some(Color::rgb(0x1a, 0x2b, 0x3c)));
    assert_eq!(parse_hex_color("ff0000"), Some(Color::rgb(255, 0, 0)));
    assert_eq!(parse_hex_color("##00ff00"), Some(Color::rgb(0, 255, 0)));
    assert_eq!(parse_hex_color("#fff"), None);
    assert_eq!(parse_hex_color("#gg0000"), None);
}

#[test]
fn word_and_drawing_colors() {
    assert_eq!(word_color("auto"), Color::black());
    assert_eq!(word_color("AUTO"), Color::black());
    assert_eq!(word_color("FF8000"), Color::rgb(255, 128, 0));
    assert_eq!(word_color("ZZ8000"), Color::rgb(0, 128, 0));
    assert_eq!(word_color("123"), Color::black());
    assert_eq!(drawing_color("00FF00"), Color::rgb(0, 255, 0));
    assert_eq!(drawing_color("auto"), Color::black());
}

#[test]
fn highlight_names() {
    assert_eq!(highlight_color("yellow"), Some(Color::rgb(255, 255, 0)));
    assert_eq!(highlight_color("darkGray"), Some(Color::rgb(169, 169, 169)));
    assert_eq!(highlight_color("none"), None);
    assert_eq!(highlight_color("Yellow"), None);
}

#[test]
fn theme_palette() {
    assert_eq!(theme_color(0), Color::white());
    assert_eq!(theme_color(1), Color::black());
    assert_eq!(theme_color(4), Color::rgb(0x4f, 0x81, 0xbd));
    assert_eq!(theme_color(42), Color::rgb(0x80, 0x80, 0x80));
}
