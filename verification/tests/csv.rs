//! Delimited text to records.

use doc_viewer::csv::{parse_delimited, parse_delimited_text};

fn rows(v: &[&[&str]]) -> Vec<Vec<String>> {
    v.iter().map(|r| r.iter().map(|s| s.to_string()).collect()).collect()
}

#[test]
fn comma_records() {
    assert_eq!(parse_delimited(b"a,b,c\n1,2,3\n"), rows(&[&["a", "b", "c"], &["1", "2", "3"]]));
    assert_eq!(parse_delimited(b"a,b\n1,2"), rows(&[&["a", "b"], &["1", "2"]]));
}

#[test]
fn tab_and_semicolon_detected() {
    assert_eq!(parse_delimited(b"a\tb\n1\t2"), rows(&[&["a", "b"], &["1", "2"]]));
    assert_eq!(parse_delimited(b"a;b\n1;2"), rows(&[&["a", "b"], &["1", "2"]]));
}

#[test]
fn consistent_delimiter_wins() {
    // Commas vary per line, semicolons do not.
    assert_eq!(
        parse_delimited(b"a,b;c\nd;e,f,g\nh;i"),
        rows(&[&["a,b", "c"], &["d", "e,f,g"], &["h", "i"]])
    );
    // A tie goes to the later candidate.
    assert_eq!(parse_delimited(b"a,b;c"), rows(&[&["a,b", "c"]]));
}

#[test]
fn quoted_fields() {
    assert_eq!(parse_delimited(b"\"x,y\",\"he said \"\"hi\"\"\"\n"), rows(&[&["x,y", "he said \"hi\""]]));
    assert_eq!(parse_delimited(b"\"a\nb\",c"), rows(&[&["a\nb", "c"]]));
    assert_eq!(parse_delimited(b"\"open,field"), rows(&[&["open,field"]]));
}

#[test]
fn line_endings_and_bom() {
    assert_eq!(parse_delimited(b"a,b\r\nc,d\r\n"), rows(&[&["a", "b"], &["c", "d"]]));
    assert_eq!(parse_delimited(b"a,b\rc,d"), rows(&[&["a", "b"], &["c", "d"]]));
    assert_eq!(parse_delimited("\u{feff}a,b".as_bytes()), rows(&[&["a", "b"]]));
    assert_eq!(parse_delimited(b"a,b\n\nc,d"), rows(&[&["a", "b"], &[""], &["c", "d"]]));
}

#[test]
fn comments_do_not_choose_the_delimiter() {
    assert_eq!(parse_delimited(b"# note; x\na,b\n"), rows(&[&["# note; x"], &["a", "b"]]));
}

#[test]
fn empty_and_invalid_utf8() {
    assert!(parse_delimited(b"").is_empty());
    assert_eq!(parse_delimited(b"a,\xff"), rows(&[&["a", "\u{fffd}"]]));
    let t: Vec<char> = "p,q".chars().collect();
    assert_eq!(parse_delimited_text(&t), rows(&[&["p", "q"]]));
}

#[test]
fn fields_are_capped_per_record() {
    let line = vec!["x"; 5000].join(",");
    let r = parse_delimited(line.as_bytes());
    assert_eq!(r.len(), 1);
    assert_eq!(r[0].len(), 4096);
}

#[test]
fn quoted_records_read_back() {
    let rows = parse_delimited(b"\"a,b\",\"c\"\"d\"\n\"x\ny\",\"\"\n");
    assert_eq!(
        rows,
        vec![vec!["a,b".to_string(), "c\"d".to_string()], vec!["x\ny".to_string(), String::new()]]
    );
}
