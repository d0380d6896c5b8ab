//! Script classes used for font selection.

use doc_viewer::script::{is_cjk, is_symbol};

#[test]
fn cjk_ranges() {
    assert!(is_cjk('中'));
    assert!(is_cjk('あ'));
    assert!(is_cjk('한'));
    assert!(is_cjk('\u{FF21}'));
    assert!(is_cjk('\u{2E80}') && is_cjk('\u{9FFF}'));
    assert!(!is_cjk('A'));
    assert!(!is_cjk('\u{2E7F}'));
    assert!(!is_cjk('\u{FFF0}'));
}

#[test]
fn symbol_ranges() {
    assert!(is_symbol('\u{2022}'));
    assert!(is_symbol('→'));
    assert!(is_symbol('☑'));
    assert!(is_symbol('■'));
    assert!(is_symbol('\u{2043}'));
    assert!(!is_symbol('\u{2044}'));
    assert!(!is_symbol('a'));
    assert!(!is_symbol('中'));
}

#[test]
fn no_character_is_both() {
    for c in ['\u{2022}', '中', '→', 'A', '\u{3000}', '\u{2B00}'] {
        assert!(!(is_cjk(c) && is_symbol(c)));
    }
}
