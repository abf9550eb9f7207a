//! The size of the textures portals are rendered into.

use vstd::prelude::*;
use crate::numeric::{float_value, to_float_value};

verus! {

/// A side of the portal's render target for a side of the screen: half of it as a 32-bit
/// float (24 significant bits), rounded half away from zero, and at least one.
pub open spec fn scaled_side(dimension: u32) -> nat {
    let f = float_value(if dimension == 0 { 1 } else { dimension as nat }, 24);
    if f % 2 == 0 {
        f / 2
    } else {
        (f + 1) / 2
    }
}

/// A side of the portal's render target: half the screen's, rounded, at least one.
pub fn scaled_dimension(dimension: u32) -> (r: u32)
    ensures
        r as nat == scaled_side(dimension),
        r >= 1,
{
    let m: u64 = if dimension == 0 {
        1
    } else {
        dimension as u64
    };
    let f = to_float_value(m, 24);
    let half: u128 = if f % 2 == 0 {
        f / 2
    } else {
        (f + 1) / 2
    };
    half as u32
}

} // verus!
