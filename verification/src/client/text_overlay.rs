//! The overlay text's font.

use vstd::prelude::*;
use crate::glyphs::{alnum_rows, alnum_glyph};

verus! {

/// The rows of the characters of the overlay's font.
pub open spec fn overlay_rows(ch: char) -> Option<[u8; 7]> {
    if ch == ' ' {
        Some([0x00u8, 0x00, 0x00, 0x00, 0x00, 0x00, 0x00])
    } else if ch == '.' {
        Some([0x00u8, 0x00, 0x00, 0x00, 0x00, 0x0C, 0x0C])
    } else if ch == ':' {
        Some([0x00u8, 0x0C, 0x0C, 0x00, 0x0C, 0x0C, 0x00])
    } else if ch == ',' {
        Some([0x00u8, 0x00, 0x00, 0x00, 0x0C, 0x0C, 0x08])
    } else if ch == '-' {
        Some([0x00u8, 0x00, 0x00, 0x1F, 0x00, 0x00, 0x00])
    } else if ch == '_' {
        Some([0x00u8, 0x00, 0x00, 0x00, 0x00, 0x00, 0x1F])
    } else if ch == '/' {
        Some([0x01u8, 0x01, 0x02, 0x04, 0x08, 0x10, 0x10])
    } else if ch == '>' {
        Some([0x10u8, 0x08, 0x04, 0x02, 0x04, 0x08, 0x10])
    } else if ch == '<' {
        Some([0x01u8, 0x02, 0x04, 0x08, 0x04, 0x02, 0x01])
    } else if ch == '(' {
        Some([0x02u8, 0x04, 0x08, 0x08, 0x08, 0x04, 0x02])
    } else if ch == ')' {
        Some([0x08u8, 0x04, 0x02, 0x02, 0x02, 0x04, 0x08])
    } else if ch == '=' {
        Some([0x00u8, 0x00, 0x1F, 0x00, 0x1F, 0x00, 0x00])
    } else if ch == '[' {
        Some([0x0Eu8, 0x08, 0x08, 0x08, 0x08, 0x08, 0x0E])
    } else if ch == ']' {
        Some([0x0Eu8, 0x02, 0x02, 0x02, 0x02, 0x02, 0x0E])
    } else if ch == '\'' {
        Some([0x04u8, 0x04, 0x08, 0x00, 0x00, 0x00, 0x00])
    } else if ch == '!' {
        Some([0x04u8, 0x04, 0x04, 0x04, 0x04, 0x00, 0x04])
    } else if ch == '?' {
        Some([0x0Eu8, 0x11, 0x01, 0x02, 0x04, 0x00, 0x04])
    } else if ch == '+' {
        Some([0x00u8, 0x04, 0x04, 0x1F, 0x04, 0x04, 0x00])
    } else if ch == '|' {
        Some([0x04u8, 0x04, 0x04, 0x04, 0x04, 0x04, 0x04])
    } else if ch == '`' {
        Some([0x08u8, 0x04, 0x02, 0x00, 0x00, 0x00, 0x00])
    } else {
        alnum_rows(ch)
    }
}

/// The rows of a character of the font; characters it lacks have none.
pub fn glyph(ch: char) -> (r: Option<[u8; 7]>)
    ensures
        r == overlay_rows(ch),
{
    match ch {
        ' ' => Some([0x00, 0x00, 0x00, 0x00, 0x00, 0x00, 0x00]),
        '.' => Some([0x00, 0x00, 0x00, 0x00, 0x00, 0x0C, 0x0C]),
        ':' => Some([0x00, 0x0C, 0x0C, 0x00, 0x0C, 0x0C, 0x00]),
        ',' => Some([0x00, 0x00, 0x00, 0x00, 0x0C, 0x0C, 0x08]),
        '-' => Some([0x00, 0x00, 0x00, 0x1F, 0x00, 0x00, 0x00]),
        '_' => Some([0x00, 0x00, 0x00, 0x00, 0x00, 0x00, 0x1F]),
        '/' => Some([0x01, 0x01, 0x02, 0x04, 0x08, 0x10, 0x10]),
        '>' => Some([0x10, 0x08, 0x04, 0x02, 0x04, 0x08, 0x10]),
        '<' => Some([0x01, 0x02, 0x04, 0x08, 0x04, 0x02, 0x01]),
        '(' => Some([0x02, 0x04, 0x08, 0x08, 0x08, 0x04, 0x02]),
        ')' => Some([0x08, 0x04, 0x02, 0x02, 0x02, 0x04, 0x08]),
        '=' => Some([0x00, 0x00, 0x1F, 0x00, 0x1F, 0x00, 0x00]),
        '[' => Some([0x0E, 0x08, 0x08, 0x08, 0x08, 0x08, 0x0E]),
        ']' => Some([0x0E, 0x02, 0x02, 0x02, 0x02, 0x02, 0x0E]),
        '\'' => Some([0x04, 0x04, 0x08, 0x00, 0x00, 0x00, 0x00]),
        '!' => Some([0x04, 0x04, 0x04, 0x04, 0x04, 0x00, 0x04]),
        '?' => Some([0x0E, 0x11, 0x01, 0x02, 0x04, 0x00, 0x04]),
        '+' => Some([0x00, 0x04, 0x04, 0x1F, 0x04, 0x04, 0x00]),
        '|' => Some([0x04, 0x04, 0x04, 0x04, 0x04, 0x04, 0x04]),
        '`' => Some([0x08, 0x04, 0x02, 0x00, 0x00, 0x00, 0x00]),
        _ => alnum_glyph(ch),
    }
}

} // verus!
