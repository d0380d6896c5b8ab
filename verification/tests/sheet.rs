//! Spreadsheet helpers: references, column names, dates, number formats.

use doc_viewer::sheet::{
    builtin_format, civil_from_days, col_letter, decimals_in, decorate, fixed_text, format_date, group_thousands, h_align,
    looks_like_date, map_align, number_format, parse_range, parse_ref, ymd_from_excel_serial, Align, BorderEdges, HAlign,
    NumberFormat,
};

#[test]
fn column_letters() {
    assert_eq!(col_letter(0), "A");
    assert_eq!(col_letter(25), "Z");
    assert_eq!(col_letter(26), "AA");
    assert_eq!(col_letter(701), "ZZ");
    assert_eq!(col_letter(702), "AAA");
}

#[test]
fn cell_references() {
    assert_eq!(parse_ref("A1"), (0, 0));
    assert_eq!(parse_ref("B3"), (2, 1));
    assert_eq!(parse_ref("AA10"), (9, 26));
    assert_eq!(parse_ref("a5"), (4, 0));
    assert_eq!(parse_ref("12"), (11, 0));
    assert_eq!(parse_ref("A"), (0, 0));
    assert_eq!(parse_ref("C0"), (0, 2));
    assert_eq!(parse_ref("D-1"), (0, 3));
}

#[test]
fn reference_round_trip() {
    for (r, c) in [(0u32, 0u32), (9, 26), (1048575, 16383), (41, 701)] {
        let text = format!("{}{}", col_letter(c as usize), r + 1);
        assert_eq!(parse_ref(&text), (r, c));
    }
}

#[test]
fn column_names_read_back_in_row_one() {
    for c in [0usize, 25, 26, 701, 702, 1_000_000] {
        assert_eq!(parse_ref(&format!("{}1", col_letter(c))), (0, c as u32));
    }
}

#[test]
fn ranges_are_ordered() {
    assert_eq!(parse_range("B2:A5"), (1, 0, 4, 1));
    assert_eq!(parse_range("A1:C3"), (0, 0, 2, 2));
    assert_eq!(parse_range("C3"), (2, 2, 2, 2));
    assert_eq!(parse_range("A1:B2:Z9"), (0, 0, 1, 1));
}

#[test]
fn serial_dates() {
    assert_eq!(civil_from_days(0), (1970, 1, 1));
    assert_eq!(civil_from_days(-1), (1969, 12, 31));
    assert_eq!(civil_from_days(59), (1970, 3, 1));
    assert_eq!(civil_from_days(11016), (2000, 2, 29));
    assert_eq!(ymd_from_excel_serial(45292), (2024, 1, 1));
    assert_eq!(ymd_from_excel_serial(25569), (1970, 1, 1));
    assert_eq!(ymd_from_excel_serial(1), (1899, 12, 31));
}

#[test]
fn dates_stay_in_calendar_range() {
    for z in (-800_000i64..800_000).step_by(997) {
        let (_, m, d) = civil_from_days(z);
        assert!((1..=12).contains(&m) && (1..=31).contains(&d));
    }
}

#[test]
fn decimal_places() {
    assert_eq!(decimals_in("0.00"), 2);
    assert_eq!(decimals_in("#,##0"), 0);
    assert_eq!(decimals_in("0.0#%"), 2);
    assert_eq!(decimals_in("0.x0"), 0);
}

#[test]
fn thousands_grouping() {
    assert_eq!(group_thousands("1234567"), "1,234,567");
    assert_eq!(group_thousands("123"), "123");
    assert_eq!(group_thousands("1234"), "1,234");
    assert_eq!(group_thousands(""), "");
    assert_eq!(group_thousands("123456").replace(',', ""), "123456");
}

#[test]
fn date_detection() {
    assert!(looks_like_date("yyyy-mm-dd"));
    assert!(looks_like_date("[$-409]MMM"));
    assert!(looks_like_date("D"));
    assert!(!looks_like_date("0.00"));
    assert!(!looks_like_date("mm"));
}

#[test]
fn date_patterns() {
    assert_eq!(format_date(45292, "yyyy-mm-dd"), "2024-01-01");
    assert_eq!(format_date(45292, "d/m/yy"), "1/1/24");
    assert_eq!(format_date(45292, "dd \"of\" mmm"), "01 of 01");
    assert_eq!(format_date(45292, "[$-409]h:mm"), ":01");
    assert_eq!(format_date(45292, "yyyy\\-mm"), "2024-01");
    assert_eq!(format_date(25569 - 730000, "yyyy yy"), "-029 71");
}

#[test]
fn number_format_kinds() {
    assert!(matches!(number_format("General"), NumberFormat::General));
    assert!(matches!(number_format(" general "), NumberFormat::General));
    assert!(matches!(number_format("@"), NumberFormat::General));
    assert!(matches!(number_format(""), NumberFormat::General));
    assert!(matches!(number_format("0.00%"), NumberFormat::Fixed { decimals: 2, thousands: false, dollar: false, percent: true }));
    assert!(matches!(number_format("#,##0.00"), NumberFormat::Fixed { decimals: 2, thousands: true, dollar: false, percent: false }));
    assert!(matches!(number_format("$#,##0;[Red]-$#,##0"), NumberFormat::Fixed { decimals: 0, thousands: true, dollar: true, percent: false }));
    match number_format("yyyy-mm-dd;@") {
        NumberFormat::Date(s) => assert_eq!(s, "yyyy-mm-dd"),
        _ => panic!("date expected"),
    }
}

#[test]
fn fixed_number_text() {
    assert_eq!(fixed_text("1234567.50", true, true), "-1,234,567.50");
    assert_eq!(fixed_text("1234567.50", false, false), "1234567.50");
    assert_eq!(fixed_text("5", false, false), "5");
    assert_eq!(decorate("1.50".to_string(), true, true), "$1.50%");
    assert_eq!(decorate("7".to_string(), false, false), "7");
}

#[test]
fn builtin_formats() {
    assert_eq!(builtin_format(14), "m/d/yyyy");
    assert_eq!(builtin_format(0), "General");
    assert_eq!(builtin_format(38), "#,##0");
    assert_eq!(builtin_format(44), "$#,##0.00");
    assert_eq!(builtin_format(49), "@");
}

#[test]
fn alignment() {
    assert_eq!(h_align("centerContinuous"), Some(HAlign::Center));
    assert_eq!(h_align("left"), Some(HAlign::Left));
    assert_eq!(h_align("justify"), None);
    assert_eq!(map_align(HAlign::Right), Align::Right);
    assert_eq!(map_align(HAlign::Center), Align::Center);
    let b = BorderEdges::default();
    assert!(!b.left && !b.right && !b.top && !b.bottom);
}
