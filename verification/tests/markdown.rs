//! Markdown and plain text to blocks.

use doc_viewer::color::Color;
use doc_viewer::flow::{Block, Span};
use doc_viewer::markdown::{atx_heading, between_word, is_rule, list_item, parse_inline, parse_link, parse_markdown, parse_text};

fn cs(s: &str) -> Vec<char> {
    s.chars().collect()
}

fn plain(s: &Span, text: &str) -> bool {
    s.text == text && !s.bold && !s.italic && !s.mono && !s.strike && !s.underline && s.color.is_none() && s.size.is_none()
}

fn texts(spans: &[Span]) -> Vec<String> {
    spans.iter().map(|s| s.text.clone()).collect()
}

#[test]
fn heading_and_bold_paragraph() {
    let b = parse_markdown("# Title\n\nHello **world**");
    assert_eq!(b.len(), 2);
    match &b[0] {
        Block::Heading(1, s) => assert!(plain(&s[0], "Title") && s.len() == 1),
        _ => panic!("heading expected"),
    }
    match &b[1] {
        Block::Para(s) => {
            assert_eq!(texts(s), vec!["Hello ", "world"]);
            assert!(!s[0].bold && s[1].bold);
        }
        _ => panic!("paragraph expected"),
    }
}

#[test]
fn atx_closing_hashes_and_levels() {
    let b = parse_markdown("### Three ###\n####### seven");
    match &b[0] {
        Block::Heading(3, s) => assert_eq!(texts(s), vec!["Three"]),
        _ => panic!(),
    }
    match &b[1] {
        Block::Para(s) => assert_eq!(texts(s), vec!["####### seven"]),
        _ => panic!(),
    }
    assert_eq!(atx_heading(&cs("## a b ##")), Some((2, cs("a b"))));
    assert_eq!(atx_heading(&cs("#nospace")), None);
}

#[test]
fn lists_with_levels_and_numbers() {
    let b = parse_markdown("- a\n  * b\n3. c\n4) d");
    let items: Vec<(u8, String, Vec<String>)> = b
        .iter()
        .map(|x| match x {
            Block::ListItem { level, marker, spans } => (*level, marker.clone(), texts(spans)),
            _ => panic!("list item expected"),
        })
        .collect();
    assert_eq!(
        items,
        vec![
            (0, "\u{2022}".to_string(), vec!["a".to_string()]),
            (1, "\u{2022}".to_string(), vec!["b".to_string()]),
            (0, "3.".to_string(), vec!["c".to_string()]),
            (0, "4.".to_string(), vec!["d".to_string()]),
        ]
    );
}

#[test]
fn list_item_indent_counts_bytes_and_caps_at_five() {
    assert_eq!(list_item(&cs("      - x")), Some(("\u{2022}".to_string(), 3, cs("x"))));
    assert_eq!(list_item(&cs("                    + y")), Some(("\u{2022}".to_string(), 5, cs("y"))));
    // U+3000 is three bytes of UTF-8.
    assert_eq!(list_item(&cs("\u{3000}- z")), Some(("\u{2022}".to_string(), 1, cs("z"))));
    assert_eq!(list_item(&cs("-x")), None);
    assert_eq!(list_item(&cs("12.")), None);
}

#[test]
fn fenced_and_indented_code() {
    let b = parse_markdown("```rust\nlet x = 1;\n```\nafter\n\n    code line\n    more\n\npara");
    match &b[0] {
        Block::Code(l) => assert_eq!(l, &vec!["let x = 1;".to_string()]),
        _ => panic!(),
    }
    match &b[1] {
        Block::Para(s) => assert_eq!(texts(s), vec!["after"]),
        _ => panic!(),
    }
    match &b[2] {
        Block::Code(l) => assert_eq!(l, &vec!["code line".to_string(), "more".to_string()]),
        _ => panic!(),
    }
    match &b[3] {
        Block::Para(s) => assert_eq!(texts(s), vec!["para"]),
        _ => panic!(),
    }
}

#[test]
fn unclosed_fence_takes_the_rest() {
    let b = parse_markdown("~~~\na\nb");
    assert_eq!(b.len(), 1);
    match &b[0] {
        Block::Code(l) => assert_eq!(l, &vec!["a".to_string(), "b".to_string()]),
        _ => panic!(),
    }
}

#[test]
fn quote_rule_and_setext() {
    let b = parse_markdown("> quoted\n> more\ncontinued\n\n---\ntext\n---\nTitle\n===");
    match &b[0] {
        Block::Quote(s) => assert_eq!(texts(s), vec!["quoted more continued"]),
        _ => panic!(),
    }
    assert!(matches!(b[1], Block::Rule));
    match &b[2] {
        Block::Heading(2, s) => assert_eq!(texts(s), vec!["text"]),
        _ => panic!(),
    }
    match &b[3] {
        Block::Heading(1, s) => assert_eq!(texts(s), vec!["Title"]),
        _ => panic!(),
    }
    assert!(is_rule(&cs(" * * * ")));
    assert!(!is_rule(&cs("-*-")));
    assert!(!is_rule(&cs("--")));
}

#[test]
fn paragraph_lines_join_with_spaces() {
    let b = parse_markdown("one\r\ntwo  \n three");
    assert_eq!(b.len(), 1);
    match &b[0] {
        Block::Para(s) => assert_eq!(texts(s), vec!["one two  three"]),
        _ => panic!(),
    }
}

#[test]
fn empty_markdown_is_one_empty_paragraph() {
    for input in ["", "\n\n", "   "] {
        let b = parse_markdown(input);
        assert_eq!(b.len(), 1);
        match &b[0] {
            Block::Para(s) => assert!(s.len() == 1 && plain(&s[0], "")),
            _ => panic!(),
        }
    }
}

#[test]
fn inline_code_link_image_strike_escape() {
    let s = parse_inline(&cs("use `x` now"));
    assert_eq!(texts(&s), vec!["use ", "x", " now"]);
    assert!(s[1].mono && s[1].color == Some(Color::rgba(0xc7, 0x25, 0x4e, 255)));

    let s = parse_inline(&cs("see [docs](http://x) end"));
    assert_eq!(texts(&s), vec!["see ", "docs", " end"]);
    assert!(s[1].underline && s[1].color == Some(Color::rgba(0x1a, 0x5f, 0xb4, 255)));

    let s = parse_inline(&cs("![alt](p.png)"));
    assert_eq!(texts(&s), vec!["alt"]);
    assert!(s[0].color == Some(Color::rgba(0x6a, 0x6f, 0x76, 255)) && !s[0].underline);

    let s = parse_inline(&cs("~~gone~~ kept ~~open"));
    assert_eq!(texts(&s), vec!["gone", " kept ", "open"]);
    assert!(s[0].strike && !s[1].strike && s[2].strike);

    let s = parse_inline(&cs("\\*not\\* \\"));
    assert_eq!(texts(&s), vec!["*not* \\"]);
}

#[test]
fn emphasis_and_snake_case() {
    let s = parse_inline(&cs("a_b_c and _it_ *em* __b__"));
    assert_eq!(texts(&s), vec!["a_b_c and ", "it", " ", "em", " ", "b"]);
    assert!(s[1].italic && s[3].italic && s[5].bold && !s[5].italic);
    assert!(between_word(&cs("a_b"), 1));
    assert!(!between_word(&cs("_b"), 0));
    assert!(!between_word(&cs("a_"), 1));
}

#[test]
fn links_need_a_parenthesised_target() {
    assert_eq!(parse_link(&cs("[t](u) rest")), Some(("t".to_string(), 6)));
    assert_eq!(parse_link(&cs("[t] (u)")), None);
    assert_eq!(parse_link(&cs("[t](u")), None);
    assert_eq!(parse_link(&cs("[t")), None);
    assert_eq!(parse_link(&[]), None);
    assert_eq!(parse_link(&cs("ab](c) d")), Some(("b".to_string(), 6)));
    assert_eq!(parse_link(&cs("no link")), None);
    let s = parse_inline(&cs("[not a link"));
    assert_eq!(texts(&s), vec!["[not a link"]);
}

#[test]
fn plain_text_paragraphs() {
    let b = parse_text("line one\nline two  \n\n  \nnext para\r\n");
    assert_eq!(b.len(), 2);
    match (&b[0], &b[1]) {
        (Block::Para(a), Block::Para(c)) => {
            assert!(a.len() == 1 && plain(&a[0], "line one line two"));
            assert!(c.len() == 1 && plain(&c[0], "next para"));
        }
        _ => panic!(),
    }
    let b = parse_text("**not bold**");
    match &b[0] {
        Block::Para(a) => assert!(plain(&a[0], "**not bold**")),
        _ => panic!(),
    }
    let b = parse_text("");
    match &b[0] {
        Block::Para(a) => assert!(a.len() == 1 && plain(&a[0], "")),
        _ => panic!(),
    }
}
