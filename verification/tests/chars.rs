//! Text helpers shared by the parsers.

use doc_viewer::chars::{is_float_text, parse_i32_chars, parse_unsigned_chars, trim_chars};

fn cs(s: &str) -> Vec<char> {
    s.chars().collect()
}

#[test]
fn float_texts_match_std() {
    let samples = [
        "0", "1.5", ".5", "5.", ".", "", "+", "-", "-1e5", "1E+3", "1e", "1e-", "e5", "inf", "-Infinity", "NaN", "nan1",
        "infinite", " 1", "1 ", "0x10", "1_000", "1.2.3", "+.e1", "-.5e-2", "12pt", "9999999999999999999999", "1,5", "INF",
        "+nan", "1e+", "١",
    ];
    for s in samples {
        assert_eq!(is_float_text(&cs(s)), s.parse::<f32>().is_ok(), "{s:?}");
        assert_eq!(is_float_text(&cs(s)), s.parse::<f64>().is_ok(), "{s:?}");
    }
}

#[test]
fn integer_texts_match_std() {
    let samples = ["0", "-0", "+7", "-2147483648", "2147483647", "2147483648", "-2147483649", "-", "+", "", "1a", "٣", " 1"];
    for s in samples {
        assert_eq!(parse_i32_chars(&cs(s)), s.parse::<i32>().ok(), "{s:?}");
        assert_eq!(parse_unsigned_chars(&cs(s), u32::MAX as u64).map(|v| v as u32), s.parse::<u32>().ok(), "{s:?}");
    }
}

#[test]
fn trimming_uses_unicode_white_space() {
    assert_eq!(trim_chars(&cs("\u{3000} a b \u{a0}\n")), cs("a b"));
    assert_eq!(trim_chars(&cs("   ")), cs(""));
}
