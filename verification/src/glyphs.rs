//! Bitmaps of the 5x7 pixel font that the client's text is drawn with. Each glyph is
//! seven rows, top row first, and bit 4 of a row is its leftmost pixel.

use vstd::prelude::*;

verus! {

/// The rows of the capital letters and digits of the font.
pub open spec fn alnum_rows(ch: char) -> Option<[u8; 7]> {
    if ch == 'A' {
        Some([0x04u8, 0x0A, 0x11, 0x1F, 0x11, 0x11, 0x11])
    } else if ch == 'B' {
        Some([0x1Eu8, 0x11, 0x11, 0x1E, 0x11, 0x11, 0x1E])
    } else if ch == 'C' {
        Some([0x0Eu8, 0x11, 0x10, 0x10, 0x10, 0x11, 0x0E])
    } else if ch == 'D' {
        Some([0x1Cu8, 0x12, 0x11, 0x11, 0x11, 0x12, 0x1C])
    } else if ch == 'E' {
        Some([0x1Fu8, 0x10, 0x10, 0x1E, 0x10, 0x10, 0x1F])
    } else if ch == 'F' {
        Some([0x1Fu8, 0x10, 0x10, 0x1E, 0x10, 0x10, 0x10])
    } else if ch == 'G' {
        Some([0x0Eu8, 0x11, 0x10, 0x17, 0x11, 0x11, 0x0F])
    } else if ch == 'H' {
        Some([0x11u8, 0x11, 0x11, 0x1F, 0x11, 0x11, 0x11])
    } else if ch == 'I' {
        Some([0x0Eu8, 0x04, 0x04, 0x04, 0x04, 0x04, 0x0E])
    } else if ch == 'J' {
        Some([0x07u8, 0x02, 0x02, 0x02, 0x02, 0x12, 0x0C])
    } else if ch == 'K' {
        Some([0x11u8, 0x12, 0x14, 0x18, 0x14, 0x12, 0x11])
    } else if ch == 'L' {
        Some([0x10u8, 0x10, 0x10, 0x10, 0x10, 0x10, 0x1F])
    } else if ch == 'M' {
        Some([0x11u8, 0x1B, 0x15, 0x15, 0x11, 0x11, 0x11])
    } else if ch == 'N' {
        Some([0x11u8, 0x19, 0x15, 0x13, 0x11, 0x11, 0x11])
    } else if ch == 'O' {
        Some([0x0Eu8, 0x11, 0x11, 0x11, 0x11, 0x11, 0x0E])
    } else if ch == 'P' {
        Some([0x1Eu8, 0x11, 0x11, 0x1E, 0x10, 0x10, 0x10])
    } else if ch == 'Q' {
        Some([0x0Eu8, 0x11, 0x11, 0x11, 0x15, 0x12, 0x0D])
    } else if ch == 'R' {
        Some([0x1Eu8, 0x11, 0x11, 0x1E, 0x14, 0x12, 0x11])
    } else if ch == 'S' {
        Some([0x0Eu8, 0x11, 0x10, 0x0E, 0x01, 0x11, 0x0E])
    } else if ch == 'T' {
        Some([0x1Fu8, 0x04, 0x04, 0x04, 0x04, 0x04, 0x04])
    } else if ch == 'U' {
        Some([0x11u8, 0x11, 0x11, 0x11, 0x11, 0x11, 0x0E])
    } else if ch == 'V' {
        Some([0x11u8, 0x11, 0x11, 0x11, 0x11, 0x0A, 0x04])
    } else if ch == 'W' {
        Some([0x11u8, 0x11, 0x11, 0x15, 0x15, 0x1B, 0x11])
    } else if ch == 'X' {
        Some([0x11u8, 0x11, 0x0A, 0x04, 0x0A, 0x11, 0x11])
    } else if ch == 'Y' {
        Some([0x11u8, 0x11, 0x0A, 0x04, 0x04, 0x04, 0x04])
    } else if ch == 'Z' {
        Some([0x1Fu8, 0x01, 0x02, 0x04, 0x08, 0x10, 0x1F])
    } else if ch == '0' {
        Some([0x0Eu8, 0x11, 0x13, 0x15, 0x19, 0x11, 0x0E])
    } else if ch == '1' {
        Some([0x04u8, 0x0C, 0x04, 0x04, 0x04, 0x04, 0x0E])
    } else if ch == '2' {
        Some([0x0Eu8, 0x11, 0x01, 0x06, 0x08, 0x10, 0x1F])
    } else if ch == '3' {
        Some([0x0Eu8, 0x11, 0x01, 0x06, 0x01, 0x11, 0x0E])
    } else if ch == '4' {
        Some([0x02u8, 0x06, 0x0A, 0x12, 0x1F, 0x02, 0x02])
    } else if ch == '5' {
        Some([0x1Fu8, 0x10, 0x1E, 0x01, 0x01, 0x11, 0x0E])
    } else if ch == '6' {
        Some([0x06u8, 0x08, 0x10, 0x1E, 0x11, 0x11, 0x0E])
    } else if ch == '7' {
        Some([0x1Fu8, 0x01, 0x02, 0x04, 0x08, 0x08, 0x08])
    } else if ch == '8' {
        Some([0x0Eu8, 0x11, 0x11, 0x0E, 0x11, 0x11, 0x0E])
    } else if ch == '9' {
        Some([0x0Eu8, 0x11, 0x11, 0x0F, 0x01, 0x02, 0x0C])
    } else {
        None
    }
}

/// The rows of a capital letter or digit of the font.
pub fn alnum_glyph(ch: char) -> (r: Option<[u8; 7]>)
    ensures
        r == alnum_rows(ch),
{
    match ch {
        'A' => Some([0x04, 0x0A, 0x11, 0x1F, 0x11, 0x11, 0x11]),
        'B' => Some([0x1E, 0x11, 0x11, 0x1E, 0x11, 0x11, 0x1E]),
        'C' => Some([0x0E, 0x11, 0x10, 0x10, 0x10, 0x11, 0x0E]),
        'D' => Some([0x1C, 0x12, 0x11, 0x11, 0x11, 0x12, 0x1C]),
        'E' => Some([0x1F, 0x10, 0x10, 0x1E, 0x10, 0x10, 0x1F]),
        'F' => Some([0x1F, 0x10, 0x10, 0x1E, 0x10, 0x10, 0x10]),
        'G' => Some([0x0E, 0x11, 0x10, 0x17, 0x11, 0x11, 0x0F]),
        'H' => Some([0x11, 0x11, 0x11, 0x1F, 0x11, 0x11, 0x11]),
        'I' => Some([0x0E, 0x04, 0x04, 0x04, 0x04, 0x04, 0x0E]),
        'J' => Some([0x07, 0x02, 0x02, 0x02, 0x02, 0x12, 0x0C]),
        'K' => Some([0x11, 0x12, 0x14, 0x18, 0x14, 0x12, 0x11]),
        'L' => Some([0x10, 0x10, 0x10, 0x10, 0x10, 0x10, 0x1F]),
        'M' => Some([0x11, 0x1B, 0x15, 0x15, 0x11, 0x11, 0x11]),
        'N' => Some([0x11, 0x19, 0x15, 0x13, 0x11, 0x11, 0x11]),
        'O' => Some([0x0E, 0x11, 0x11, 0x11, 0x11, 0x11, 0x0E]),
        'P' => Some([0x1E, 0x11, 0x11, 0x1E, 0x10, 0x10, 0x10]),
        'Q' => Some([0x0E, 0x11, 0x11, 0x11, 0x15, 0x12, 0x0D]),
        'R' => Some([0x1E, 0x11, 0x11, 0x1E, 0x14, 0x12, 0x11]),
        'S' => Some([0x0E, 0x11, 0x10, 0x0E, 0x01, 0x11, 0x0E]),
        'T' => Some([0x1F, 0x04, 0x04, 0x04, 0x04, 0x04, 0x04]),
        'U' => Some([0x11, 0x11, 0x11, 0x11, 0x11, 0x11, 0x0E]),
        'V' => Some([0x11, 0x11, 0x11, 0x11, 0x11, 0x0A, 0x04]),
        'W' => Some([0x11, 0x11, 0x11, 0x15, 0x15, 0x1B, 0x11]),
        'X' => Some([0x11, 0x11, 0x0A, 0x04, 0x0A, 0x11, 0x11]),
        'Y' => Some([0x11, 0x11, 0x0A, 0x04, 0x04, 0x04, 0x04]),
        'Z' => Some([0x1F, 0x01, 0x02, 0x04, 0x08, 0x10, 0x1F]),
        '0' => Some([0x0E, 0x11, 0x13, 0x15, 0x19, 0x11, 0x0E]),
        '1' => Some([0x04, 0x0C, 0x04, 0x04, 0x04, 0x04, 0x0E]),
        '2' => Some([0x0E, 0x11, 0x01, 0x06, 0x08, 0x10, 0x1F]),
        '3' => Some([0x0E, 0x11, 0x01, 0x06, 0x01, 0x11, 0x0E]),
        '4' => Some([0x02, 0x06, 0x0A, 0x12, 0x1F, 0x02, 0x02]),
        '5' => Some([0x1F, 0x10, 0x1E, 0x01, 0x01, 0x11, 0x0E]),
        '6' => Some([0x06, 0x08, 0x10, 0x1E, 0x11, 0x11, 0x0E]),
        '7' => Some([0x1F, 0x01, 0x02, 0x04, 0x08, 0x08, 0x08]),
        '8' => Some([0x0E, 0x11, 0x11, 0x0E, 0x11, 0x11, 0x0E]),
        '9' => Some([0x0E, 0x11, 0x11, 0x0F, 0x01, 0x02, 0x0C]),
        _ => None,
    }
}

} // verus!
