//! Script classes of characters, used to pick a font for each character.

use vstd::prelude::*;

verus! {

/// CJK ideographs, kana, hangul and full-width forms: the code points
/// U+2E80..=U+9FFF, U+AC00..=U+D7A3, U+F900..=U+FAFF and U+FF00..=U+FFEF.
pub open spec fn spec_is_cjk(c: char) -> bool {
    let u = c as u32;
    (0x2E80 <= u <= 0x9FFF) || (0xAC00 <= u <= 0xD7A3) || (0xF900 <= u <= 0xFAFF) || (0xFF00 <= u
        <= 0xFFEF)
}

/// Whether `ch` is East Asian (CJK ideograph, kana, hangul, full-width form).
pub fn is_cjk(ch: char) -> (b: bool)
    ensures
        b == spec_is_cjk(ch),
{
    let c = ch as u32;
    (0x2E80 <= c && c <= 0x9FFF) || (0xAC00 <= c && c <= 0xD7A3) || (0xF900 <= c && c <= 0xFAFF)
        || (0xFF00 <= c && c <= 0xFFEF)
}

/// Bullets, arrows, enclosed alphanumerics, geometric shapes, dingbats and
/// miscellaneous symbols.
pub open spec fn spec_is_symbol(c: char) -> bool {
    let u = c as u32;
    (0x2022 <= u <= 0x2023) || u == 0x2043 || (0x204C <= u <= 0x204D) || (0x2190 <= u <= 0x21FF)
        || (0x2460 <= u <= 0x24FF) || (0x25A0 <= u <= 0x25FF) || (0x2600 <= u <= 0x27BF) || (
    0x2B00 <= u <= 0x2BFF)
}

/// Whether `ch` is a stand-alone symbol that a symbol font draws better than a
/// text font.
pub fn is_symbol(ch: char) -> (b: bool)
    ensures
        b == spec_is_symbol(ch),
{
    let c = ch as u32;
    (0x2022 <= c && c <= 0x2023) || c == 0x2043 || (0x204C <= c && c <= 0x204D) || (0x2190 <= c
        && c <= 0x21FF) || (0x2460 <= c && c <= 0x24FF) || (0x25A0 <= c && c <= 0x25FF) || (0x2600
        <= c && c <= 0x27BF) || (0x2B00 <= c && c <= 0x2BFF)
}

/// No character is both East Asian and a symbol.
pub proof fn law_cjk_and_symbol_disjoint(c: char)
    ensures
        !(spec_is_cjk(c) && spec_is_symbol(c)),
{
}

} // verus!
