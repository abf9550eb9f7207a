//! The crosshair's two bars.

use vstd::prelude::*;

verus! {

/// The triangles of the crosshair: two for the horizontal bar (vertices 0 to 3), two for the
/// vertical one (vertices 4 to 7).
pub fn build_indices() -> (r: [u16; 12])
    ensures
        r@ == seq![0u16, 1, 2, 0, 2, 3, 4, 5, 6, 4, 6, 7],
{
    let r: [u16; 12] = [0, 1, 2, 0, 2, 3, 4, 5, 6, 4, 6, 7];
    assert(r@ =~= seq![0u16, 1, 2, 0, 2, 3, 4, 5, 6, 4, 6, 7]);
    r
}

} // verus!
