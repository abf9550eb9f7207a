//! The index lists of the user interface's quads: each quad of four vertices is drawn as two
//! triangles, and no more quads are drawn than the buffers hold.

use vstd::prelude::*;

verus! {

/// The offset, from its quad's first vertex, of the `j`-th index of a quad's six.
pub open spec fn corner_offset(j: int) -> int {
    if j == 0 || j == 3 {
        0
    } else if j == 1 {
        1
    } else if j == 2 || j == 4 {
        2
    } else {
        3
    }
}

/// The `n`-th index of the list: for quad `n / 6`, whose first vertex is `4 · (n / 6)` as a
/// 16-bit index, the corners 0, 1, 2, 0, 2, 3.
pub open spec fn quad_index(n: int) -> int {
    ((4 * (n / 6)) as u16) as int + corner_offset(n % 6)
}

/// How many quads are drawn from `vertex_count` vertices: one per four, at most `max_quads`.
pub open spec fn drawn_quads(vertex_count: usize, max_quads: usize) -> int {
    if vertex_count / 4 > max_quads {
        max_quads as int
    } else {
        (vertex_count / 4) as int
    }
}

/// The indices that draw the quads of `vertex_count` vertices, at most `max_quads` of them.
pub fn quad_indices(vertex_count: usize, max_quads: usize) -> (r: Vec<u16>)
    requires
        max_quads <= usize::MAX / 6,
    ensures
        r@.len() == 6 * drawn_quads(vertex_count, max_quads),
        forall|n: int| 0 <= n < r@.len() ==> r@[n] as int == quad_index(n),
{
    let mut quad_count = vertex_count / 4;
    if quad_count > max_quads {
        quad_count = max_quads;
    }
    let mut indices: Vec<u16> = Vec::new();
    let mut i: usize = 0;
    while i < quad_count
        invariant
            quad_count <= max_quads <= usize::MAX / 6,
            i <= quad_count,
            indices@.len() == 6 * i,
            forall|n: int| 0 <= n < indices@.len() ==> indices@[n] as int == quad_index(n),
        decreases quad_count - i,
    {
        let x: u64 = i as u64;
        let wide: u64 = x * 4;
        let base = wide as u16;
        assert(base <= 65532u16) by (bit_vector)
            requires
                base == wide as u16,
                wide == x * 4,
                x < 0x4000_0000_0000_0000u64,
        ;
        let ghost start = indices@.len() as int;
        indices.push(base);
        indices.push(base + 1);
        indices.push(base + 2);
        indices.push(base);
        indices.push(base + 2);
        indices.push(base + 3);
        proof {
            assert forall|n: int| 0 <= n < indices@.len() implies indices@[n] as int == quad_index(n) by {
                if n >= start {
                    let j = n - start;
                    assert(n / 6 == i as int && n % 6 == j) by (nonlinear_arith)
                        requires
                            n == 6 * i + j,
                            0 <= j < 6,
                    ;
                    assert(wide as int == 4 * (n / 6));
                }
            }
        }
        i += 1;
    }
    indices
}

} // verus!
