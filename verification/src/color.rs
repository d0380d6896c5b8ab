//! Straight 8-bit RGBA colours and the paint primitives of the display list.

use vstd::prelude::*;
use vstd::string::StringSliceAdditionalSpecFns;

verus! {

/// Straight (un-premultiplied) 8-bit RGBA colour.
#[derive(Clone, Copy, Debug, PartialEq, Eq, Structural)]
pub struct Color {
    pub r: u8,
    pub g: u8,
    pub b: u8,
    pub a: u8,
}

impl Color {
    /// Opaque black.
    pub fn black() -> (c: Color)
        ensures
            c == (Color { r: 0, g: 0, b: 0, a: 255 }),
    {
        Color { r: 0, g: 0, b: 0, a: 255 }
    }

    /// Opaque white.
    pub fn white() -> (c: Color)
        ensures
            c == (Color { r: 255, g: 255, b: 255, a: 255 }),
    {
        Color { r: 255, g: 255, b: 255, a: 255 }
    }

    /// A colour from its four channels.
    pub fn rgba(r: u8, g: u8, b: u8, a: u8) -> (c: Color)
        ensures
            c == (Color { r, g, b, a }),
    {
        Color { r, g, b, a }
    }

    /// An opaque colour from its three colour channels.
    pub fn rgb(r: u8, g: u8, b: u8) -> (c: Color)
        ensures
            c == (Color { r, g, b, a: 255 }),
    {
        Color { r, g, b, a: 255 }
    }
}

/// How overlapping sub-paths decide what is inside a filled path.
#[derive(Clone, Copy, Debug, PartialEq, Eq, Structural)]
pub enum FillRule {
    /// Non-zero winding (default for most vector content).
    NonZero,
    /// Even-odd (used by PDF `f*`/`B*` and some glyph outlines).
    EvenOdd,
}

/// How a shape is filled.
#[derive(Clone, Copy, Debug, PartialEq, Eq, Structural)]
pub enum Paint {
    Solid(Color),
}

/// Index into the render-time font registry.
#[derive(Clone, Copy, Debug, PartialEq, Eq, Hash, Structural)]
pub struct FontId(pub u32);

/// Value of an ASCII hexadecimal digit byte.
pub open spec fn hex_val(b: u8) -> Option<u8> {
    if 0x30 <= b <= 0x39 {
        Some((b - 0x30) as u8)
    } else if 0x61 <= b <= 0x66 {
        Some((b - 0x61 + 10) as u8)
    } else if 0x41 <= b <= 0x46 {
        Some((b - 0x41 + 10) as u8)
    } else {
        None
    }
}

/// `u8::from_str_radix(_, 16)` on a two-byte text: a `+` sign followed by one
/// digit, or two digits.
pub open spec fn radix16_pair(a: u8, b: u8) -> Option<u8> {
    if a == 0x2B {
        hex_val(b)
    } else {
        match (hex_val(a), hex_val(b)) {
            (Some(x), Some(y)) => Some((x * 16 + y) as u8),
            _ => None,
        }
    }
}

/// Value of one hexadecimal digit byte.
pub fn hex_digit(b: u8) -> (r: Option<u8>)
    ensures
        r == hex_val(b),
{
    if 0x30 <= b && b <= 0x39 {
        Some(b - 0x30)
    } else if 0x61 <= b && b <= 0x66 {
        Some(b - 0x61 + 10)
    } else if 0x41 <= b && b <= 0x46 {
        Some(b - 0x41 + 10)
    } else {
        None
    }
}

/// `u8::from_str_radix(_, 16)` on the two bytes `a`, `b`.
pub fn hex_pair(a: u8, b: u8) -> (r: Option<u8>)
    ensures
        r == radix16_pair(a, b),
{
    if a == 0x2B {
        return hex_digit(b);
    }
    match (hex_digit(a), hex_digit(b)) {
        (Some(x), Some(y)) => Some(x * 16 + y),
        _ => None,
    }
}

/// Six bytes read as three `radix16_pair` channels of an opaque colour.
pub open spec fn rgb_hex(h: Seq<u8>) -> Option<Color> {
    match (radix16_pair(h[0], h[1]), radix16_pair(h[2], h[3]), radix16_pair(h[4], h[5])) {
        (Some(r), Some(g), Some(b)) => Some(Color { r, g, b, a: 255 }),
        _ => None,
    }
}

/// Channel value of a two-byte hex pair, 0 when it does not parse.
pub open spec fn pair_or_zero(a: u8, b: u8) -> u8 {
    match radix16_pair(a, b) {
        Some(v) => v,
        None => 0,
    }
}

/// Number of leading `#` (0x23) bytes.
pub open spec fn lead_hash(b: Seq<u8>) -> nat
    decreases b.len(),
{
    if b.len() > 0 && b[0] == 0x23 {
        1 + lead_hash(b.drop_first())
    } else {
        0
    }
}

/// `#RRGGBB` (any number of leading `#`) over the UTF-8 bytes of the text.
pub open spec fn spec_parse_hex_color(b: Seq<u8>) -> Option<Color> {
    let h = b.skip(lead_hash(b) as int);
    if h.len() == 6 {
        rgb_hex(h)
    } else {
        None
    }
}

/// Parses `#RRGGBB` (leading `#`s are all dropped) into an opaque colour.
/// The text is read as UTF-8 bytes; a non-ASCII character makes it invalid.
pub fn parse_hex_color(s: &str) -> (r: Option<Color>)
    ensures
        r == spec_parse_hex_color(s.spec_bytes()),
{
    let b = s.as_bytes();
    let mut i: usize = 0;
    assert(b@.skip(0) =~= b@);
    while i < b.len() && b[i] == 0x23
        invariant
            i <= b.len(),
            lead_hash(b@) == i + lead_hash(b@.skip(i as int)),
        decreases b.len() - i,
    {
        assert(b@.skip(i as int).drop_first() =~= b@.skip(i + 1));
        i += 1;
    }
    assert(b@.skip(0) =~= b@);
    if i < b.len() {
        assert(b@.skip(i as int)[0] == b@[i as int]);
    }
    assert(lead_hash(b@.skip(i as int)) == 0);
    if b.len() - i != 6 {
        return None;
    }
    let r = match hex_pair(b[i], b[i + 1]) {
        Some(v) => v,
        None => return None,
    };
    let g = match hex_pair(b[i + 2], b[i + 3]) {
        Some(v) => v,
        None => return None,
    };
    let bl = match hex_pair(b[i + 4], b[i + 5]) {
        Some(v) => v,
        None => return None,
    };
    Some(Color { r, g, b: bl, a: 255 })
}

/// Whether the bytes spell `auto` in any ASCII case.
pub open spec fn is_auto(b: Seq<u8>) -> bool {
    b.len() == 4 && (b[0] == 0x61 || b[0] == 0x41) && (b[1] == 0x75 || b[1] == 0x55) && (b[2]
        == 0x74 || b[2] == 0x54) && (b[3] == 0x6F || b[3] == 0x4F)
}

/// Six hex bytes as an opaque colour, a channel that does not parse being 0.
pub open spec fn rgb_or_zero(h: Seq<u8>) -> Color {
    Color {
        r: pair_or_zero(h[0], h[1]),
        g: pair_or_zero(h[2], h[3]),
        b: pair_or_zero(h[4], h[5]),
        a: 255,
    }
}

/// DOCX `w:color` value: `auto` (any case) or anything but six bytes is black;
/// otherwise `RRGGBB` with an unparsable channel read as 0.
pub open spec fn spec_word_color(b: Seq<u8>) -> Color {
    if is_auto(b) || b.len() != 6 {
        Color { r: 0, g: 0, b: 0, a: 255 }
    } else {
        rgb_or_zero(b)
    }
}

/// DrawingML `srgbClr` value: anything but six bytes is black; otherwise
/// `RRGGBB` with an unparsable channel read as 0.
pub open spec fn spec_drawing_color(b: Seq<u8>) -> Color {
    if b.len() != 6 {
        Color { r: 0, g: 0, b: 0, a: 255 }
    } else {
        rgb_or_zero(b)
    }
}

fn six_hex_or_zero(b: &[u8]) -> (c: Color)
    requires
        b.len() == 6,
    ensures
        c == rgb_or_zero(b@),
{
    let r = match hex_pair(b[0], b[1]) {
        Some(v) => v,
        None => 0,
    };
    let g = match hex_pair(b[2], b[3]) {
        Some(v) => v,
        None => 0,
    };
    let bl = match hex_pair(b[4], b[5]) {
        Some(v) => v,
        None => 0,
    };
    Color { r, g, b: bl, a: 255 }
}

/// Colour of a WordprocessingML `w:color`/`w:fill` value (`auto` is black).
pub fn word_color(s: &str) -> (c: Color)
    ensures
        c == spec_word_color(s.spec_bytes()),
{
    let b = s.as_bytes();
    let auto = b.len() == 4 && (b[0] == 0x61 || b[0] == 0x41) && (b[1] == 0x75 || b[1] == 0x55)
        && (b[2] == 0x74 || b[2] == 0x54) && (b[3] == 0x6F || b[3] == 0x4F);
    if auto || b.len() != 6 {
        Color { r: 0, g: 0, b: 0, a: 255 }
    } else {
        six_hex_or_zero(b)
    }
}

/// Colour of a DrawingML `a:srgbClr` value.
pub fn drawing_color(s: &str) -> (c: Color)
    ensures
        c == spec_drawing_color(s.spec_bytes()),
{
    let b = s.as_bytes();
    if b.len() != 6 {
        Color { r: 0, g: 0, b: 0, a: 255 }
    } else {
        six_hex_or_zero(b)
    }
}

/// Named `w:highlight` colour (`none` and unknown names give `None`).
pub open spec fn spec_highlight(name: Seq<char>) -> Option<(u8, u8, u8)> {
    if name == "black"@ {
        Some((0u8, 0u8, 0u8))
    } else if name == "blue"@ {
        Some((0u8, 0u8, 255u8))
    } else if name == "cyan"@ {
        Some((0u8, 255u8, 255u8))
    } else if name == "green"@ {
        Some((0u8, 255u8, 0u8))
    } else if name == "magenta"@ {
        Some((255u8, 0u8, 255u8))
    } else if name == "red"@ {
        Some((255u8, 0u8, 0u8))
    } else if name == "yellow"@ {
        Some((255u8, 255u8, 0u8))
    } else if name == "white"@ {
        Some((255u8, 255u8, 255u8))
    } else if name == "darkBlue"@ {
        Some((0u8, 0u8, 139u8))
    } else if name == "darkCyan"@ {
        Some((0u8, 139u8, 139u8))
    } else if name == "darkGreen"@ {
        Some((0u8, 100u8, 0u8))
    } else if name == "darkMagenta"@ {
        Some((139u8, 0u8, 139u8))
    } else if name == "darkRed"@ {
        Some((139u8, 0u8, 0u8))
    } else if name == "darkYellow"@ {
        Some((128u8, 128u8, 0u8))
    } else if name == "darkGray"@ {
        Some((169u8, 169u8, 169u8))
    } else if name == "lightGray"@ {
        Some((211u8, 211u8, 211u8))
    } else {
        None
    }
}

/// Named `w:highlight` colour -> RGB (`none` -> None).
pub fn highlight_color(name: &str) -> (c: Option<Color>)
    ensures
        match spec_highlight(name@) {
            Some((r, g, b)) => c == Some(Color { r, g, b, a: 255 }),
            None => c is None,
        },
{
    if crate::xml::str_eq(name, "black") {
        Some(Color::rgb(0, 0, 0))
    } else if crate::xml::str_eq(name, "blue") {
        Some(Color::rgb(0, 0, 255))
    } else if crate::xml::str_eq(name, "cyan") {
        Some(Color::rgb(0, 255, 255))
    } else if crate::xml::str_eq(name, "green") {
        Some(Color::rgb(0, 255, 0))
    } else if crate::xml::str_eq(name, "magenta") {
        Some(Color::rgb(255, 0, 255))
    } else if crate::xml::str_eq(name, "red") {
        Some(Color::rgb(255, 0, 0))
    } else if crate::xml::str_eq(name, "yellow") {
        Some(Color::rgb(255, 255, 0))
    } else if crate::xml::str_eq(name, "white") {
        Some(Color::rgb(255, 255, 255))
    } else if crate::xml::str_eq(name, "darkBlue") {
        Some(Color::rgb(0, 0, 139))
    } else if crate::xml::str_eq(name, "darkCyan") {
        Some(Color::rgb(0, 139, 139))
    } else if crate::xml::str_eq(name, "darkGreen") {
        Some(Color::rgb(0, 100, 0))
    } else if crate::xml::str_eq(name, "darkMagenta") {
        Some(Color::rgb(139, 0, 139))
    } else if crate::xml::str_eq(name, "darkRed") {
        Some(Color::rgb(139, 0, 0))
    } else if crate::xml::str_eq(name, "darkYellow") {
        Some(Color::rgb(128, 128, 0))
    } else if crate::xml::str_eq(name, "darkGray") {
        Some(Color::rgb(169, 169, 169))
    } else if crate::xml::str_eq(name, "lightGray") {
        Some(Color::rgb(211, 211, 211))
    } else {
        None
    }
}

/// Approximate default Office theme palette entry `idx`.
pub open spec fn spec_theme_color(idx: u32) -> Color {
    if idx == 0 {
        Color { r: 255, g: 255, b: 255, a: 255 }
    } else if idx == 1 {
        Color { r: 0, g: 0, b: 0, a: 255 }
    } else if idx == 2 {
        Color { r: 0xEE, g: 0xEC, b: 0xE1, a: 255 }
    } else if idx == 3 {
        Color { r: 0x1F, g: 0x49, b: 0x7D, a: 255 }
    } else if idx == 4 {
        Color { r: 0x4F, g: 0x81, b: 0xBD, a: 255 }
    } else if idx == 5 {
        Color { r: 0xC0, g: 0x50, b: 0x4D, a: 255 }
    } else if idx == 6 {
        Color { r: 0x9B, g: 0xBB, b: 0x59, a: 255 }
    } else if idx == 7 {
        Color { r: 0x80, g: 0x64, b: 0xA2, a: 255 }
    } else if idx == 8 {
        Color { r: 0x4B, g: 0xAC, b: 0xC6, a: 255 }
    } else if idx == 9 {
        Color { r: 0xF7, g: 0x96, b: 0x46, a: 255 }
    } else {
        Color { r: 0x80, g: 0x80, b: 0x80, a: 255 }
    }
}

/// Spreadsheet theme colour index -> RGB (tint is applied separately).
pub fn theme_color(idx: u32) -> (c: Color)
    ensures
        c == spec_theme_color(idx),
{
    match idx {
        0 => Color::rgb(255, 255, 255),
        1 => Color::rgb(0, 0, 0),
        2 => Color::rgb(0xEE, 0xEC, 0xE1),
        3 => Color::rgb(0x1F, 0x49, 0x7D),
        4 => Color::rgb(0x4F, 0x81, 0xBD),
        5 => Color::rgb(0xC0, 0x50, 0x4D),
        6 => Color::rgb(0x9B, 0xBB, 0x59),
        7 => Color::rgb(0x80, 0x64, 0xA2),
        8 => Color::rgb(0x4B, 0xAC, 0xC6),
        9 => Color::rgb(0xF7, 0x96, 0x46),
        _ => Color::rgb(0x80, 0x80, 0x80),
    }
}

} // verus!
