//! Mapping a byte to a single displayable character for glyph-mode output.

use vstd::prelude::*;

verus! {

/// The display glyph for a byte: printable ASCII graphic characters stand
/// for themselves; byte 0 gets a dedicated zero symbol, the control bytes
/// 1 through 31 get one distinct circled-number symbol each (two contiguous
/// symbol spans), and every other byte gets a generic placeholder.
pub open spec fn glyph(b: u8) -> char {
    if 0x21 <= b && b <= 0x7e {
        b as char
    } else {
        match b {
            0u8 => '\u{24ea}',
            1u8 => '\u{2460}',
            2u8 => '\u{2461}',
            3u8 => '\u{2462}',
            4u8 => '\u{2463}',
            5u8 => '\u{2464}',
            6u8 => '\u{2465}',
            7u8 => '\u{2466}',
            8u8 => '\u{2467}',
            9u8 => '\u{2468}',
            10u8 => '\u{2469}',
            11u8 => '\u{246a}',
            12u8 => '\u{246b}',
            13u8 => '\u{246c}',
            14u8 => '\u{246d}',
            15u8 => '\u{246e}',
            16u8 => '\u{246f}',
            17u8 => '\u{2470}',
            18u8 => '\u{2471}',
            19u8 => '\u{2472}',
            20u8 => '\u{2473}',
            21u8 => '\u{3251}',
            22u8 => '\u{3252}',
            23u8 => '\u{3253}',
            24u8 => '\u{3254}',
            25u8 => '\u{3255}',
            26u8 => '\u{3256}',
            27u8 => '\u{3257}',
            28u8 => '\u{3258}',
            29u8 => '\u{3259}',
            30u8 => '\u{325a}',
            31u8 => '\u{325b}',
            _ => '\u{25af}',
        }
    }
}

/// The glyph a byte is displayed as; total over all 256 byte values.
pub fn to_char(b: u8) -> (c: char)
    ensures
        c == glyph(b),
{
    if 0x21 <= b && b <= 0x7e {
        b as char
    } else {
        match b {
            0 => '\u{24ea}',
            1 => '\u{2460}',
            2 => '\u{2461}',
            3 => '\u{2462}',
            4 => '\u{2463}',
            5 => '\u{2464}',
            6 => '\u{2465}',
            7 => '\u{2466}',
            8 => '\u{2467}',
            9 => '\u{2468}',
            10 => '\u{2469}',
            11 => '\u{246a}',
            12 => '\u{246b}',
            13 => '\u{246c}',
            14 => '\u{246d}',
            15 => '\u{246e}',
            16 => '\u{246f}',
            17 => '\u{2470}',
            18 => '\u{2471}',
            19 => '\u{2472}',
            20 => '\u{2473}',
            21 => '\u{3251}',
            22 => '\u{3252}',
            23 => '\u{3253}',
            24 => '\u{3254}',
            25 => '\u{3255}',
            26 => '\u{3256}',
            27 => '\u{3257}',
            28 => '\u{3258}',
            29 => '\u{3259}',
            30 => '\u{325a}',
            31 => '\u{325b}',
            _ => '\u{25af}',
        }
    }
}

/// The glyph mapping tells all control codes apart: on the bytes `0..=31`
/// no two distinct values share a glyph, so differences among control
/// bytes stay visible in glyph-mode output.
pub proof fn lemma_glyph_injective_on_controls()
    ensures
        forall|i: u8, j: u8| i < 32 && j < 32 && i != j ==> glyph(i) != glyph(j),
{
}

} // verus!
