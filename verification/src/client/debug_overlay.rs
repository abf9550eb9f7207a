//! The debug overlay's texts: block names, movement modes, portal summaries and byte counts.

use vstd::prelude::*;
use crate::coords::WorldPos;
use crate::chunk::BlockId;
use crate::text::{decimal, digit_char, push_decimal, push_signed_decimal, signed_decimal};
use crate::numeric::{float_value, round_half_even_div, to_float_value, div_round_half_even};

verus! {

/// The six faces of a block.
#[derive(Debug, Clone, Copy, PartialEq, Eq, Structural)]
pub enum Face {
    PosX,
    NegX,
    PosY,
    NegY,
    PosZ,
    NegZ,
}

/// What the overlay shows of a portal: the block it stands on, the face it is on, and whether
/// it is linked to the other portal.
#[derive(Debug, Clone, Copy)]
pub struct PortalOverlayInfo {
    pub support_lower: WorldPos,
    pub face: Face,
    pub linked: bool,
}

/// The name shown for a block id.
pub open spec fn block_display_text(id: u16) -> Seq<char> {
    if id == 1 {
        "Bedstone"@
    } else if id == 2 {
        "Granite"@
    } else if id == 3 {
        "Loam"@
    } else if id == 4 {
        "Verdant Turf"@
    } else if id == 5 {
        "Dune Sand"@
    } else if id == 6 {
        "Timber Log"@
    } else if id == 7 {
        "Hewn Plank"@
    } else if id == 8 {
        "Canopy Leaves"@
    } else if id == 9 {
        "Still Water"@
    } else if id == 10 {
        "Rubblestone"@
    } else if id == 11 {
        "Iron Vein"@
    } else if id == 12 {
        "Crystal Pane"@
    } else if id == 13 {
        "Kiln Brick"@
    } else if id == 14 {
        "Gravel Bed"@
    } else if id == 15 {
        "Snowcap"@
    } else {
        "Unknown"@
    }
}

/// The name shown for a block.
pub fn block_display_name(id: BlockId) -> (r: &'static str)
    ensures
        r@ == block_display_text(id.0),
{
    match id.0 {
        1 => "Bedstone",
        2 => "Granite",
        3 => "Loam",
        4 => "Verdant Turf",
        5 => "Dune Sand",
        6 => "Timber Log",
        7 => "Hewn Plank",
        8 => "Canopy Leaves",
        9 => "Still Water",
        10 => "Rubblestone",
        11 => "Iron Vein",
        12 => "Crystal Pane",
        13 => "Kiln Brick",
        14 => "Gravel Bed",
        15 => "Snowcap",
        _ => "Unknown",
    }
}

/// The movement mode as the window title and as the overlay show it.
pub fn movement_mode_labels(fly_mode: bool) -> (r: (&'static str, &'static str))
    ensures
        fly_mode ==> r.0@ == "Fly"@ && r.1@ == "FLY"@,
        !fly_mode ==> r.0@ == "Walk"@ && r.1@ == "WALK"@,
{
    if fly_mode {
        ("Fly", "FLY")
    } else {
        ("Walk", "WALK")
    }
}

/// The label of a face: its axis and direction.
pub open spec fn face_text(face: Face) -> Seq<char> {
    match face {
        Face::PosX => "+X"@,
        Face::NegX => "-X"@,
        Face::PosY => "+Y"@,
        Face::NegY => "-Y"@,
        Face::PosZ => "+Z"@,
        Face::NegZ => "-Z"@,
    }
}

/// The label of a face.
pub fn face_label(face: Face) -> (r: &'static str)
    ensures
        r@ == face_text(face),
{
    match face {
        Face::PosX => "+X",
        Face::NegX => "-X",
        Face::PosY => "+Y",
        Face::NegY => "-Y",
        Face::PosZ => "+Z",
        Face::NegZ => "-Z",
    }
}

/// A portal's summary: `x y z | face | linked=yes|no`, or `none`.
pub open spec fn portal_info_text(info: Option<PortalOverlayInfo>) -> Seq<char> {
    match info {
        None => "none"@,
        Some(i) => signed_decimal(i.support_lower.x as int) + " "@ + signed_decimal(i.support_lower.y as int)
            + " "@ + signed_decimal(i.support_lower.z as int) + " | "@ + face_text(i.face)
            + " | linked="@ + if i.linked {
            "yes"@
        } else {
            "no"@
        },
    }
}

/// A portal's summary for the overlay.
pub fn format_portal_overlay_info(info: Option<PortalOverlayInfo>) -> (r: String)
    ensures
        r@ == portal_info_text(info),
{
    let mut s = String::new();
    match info {
        None => {
            s.push_str("none");
        },
        Some(i) => {
            push_signed_decimal(&mut s, i.support_lower.x as i64);
            s.push_str(" ");
            push_signed_decimal(&mut s, i.support_lower.y as i64);
            s.push_str(" ");
            push_signed_decimal(&mut s, i.support_lower.z as i64);
            s.push_str(" | ");
            s.push_str(face_label(i.face));
            s.push_str(" | linked=");
            s.push_str(if i.linked {
                "yes"
            } else {
                "no"
            });
        },
    }
    assert(s@ =~= portal_info_text(info));
    s
}

/// A count of hundredths written with two decimals.
pub open spec fn fixed2_text(h: nat) -> Seq<char> {
    decimal(h / 100) + "."@ + seq![digit_char(((h % 100) / 10) as int), digit_char((h % 10) as int)]
}

/// A number of bytes as the overlay shows it: in MiB or KiB with two decimals (of the count
/// as a 64-bit float, ties to even) from one MiB or KiB up, and in bytes below.
pub open spec fn bytes_text(bytes: u64) -> Seq<char> {
    let v = float_value(bytes as nat, 53);
    if v >= 1048576 {
        fixed2_text(round_half_even_div(v * 100, 1048576)) + " MiB"@
    } else if v >= 1024 {
        fixed2_text(round_half_even_div(v * 100, 1024)) + " KiB"@
    } else {
        decimal(bytes as nat) + " B"@
    }
}

fn push_fixed2(s: &mut String, h: u128)
    requires
        h / 100 <= u64::MAX,
    ensures
        final(s)@ == old(s)@ + fixed2_text(h as nat),
{
    push_decimal(s, (h / 100) as u64);
    s.push_str(".");
    let tens = ((h % 100) / 10) as u64;
    let ones = (h % 10) as u64;
    s.push(digit_of(tens));
    s.push(digit_of(ones));
    assert(final(s)@ =~= old(s)@ + fixed2_text(h as nat));
}

fn digit_of(d: u64) -> (c: char)
    requires
        d < 10,
    ensures
        c == digit_char(d as int),
{
    let v: u8 = (48 + d) as u8;
    v as char
}

/// A number of bytes as the overlay shows it.
pub fn format_bytes(bytes: u64) -> (r: String)
    ensures
        r@ == bytes_text(bytes),
{
    let v = to_float_value(bytes, 53);
    let mut s = String::new();
    if v >= 1048576 {
        let h = div_round_half_even(v * 100, 1048576);
        push_fixed2(&mut s, h);
        s.push_str(" MiB");
    } else if v >= 1024 {
        let h = div_round_half_even(v * 100, 1024);
        push_fixed2(&mut s, h);
        s.push_str(" KiB");
    } else {
        push_decimal(&mut s, bytes);
        s.push_str(" B");
    }
    assert(s@ =~= bytes_text(bytes));
    s
}

} // verus!
