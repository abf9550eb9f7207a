//! What uploading chunk meshes to the GPU costs, and how its buffers grow.

use vstd::prelude::*;
use vstd::arithmetic::power2::{pow2, lemma_pow2_unfold};

verus! {

/// Bytes uploaded and buffers reallocated while uploading meshes.
#[derive(Debug, Clone, Copy, Default, PartialEq, Eq, Structural)]
pub struct MeshUploadStats {
    pub uploaded_bytes: u64,
    pub buffer_reallocations: u32,
}

/// What one pass over the chunks drew.
#[derive(Debug, Clone, Copy, Default, PartialEq, Eq, Structural)]
pub struct ChunkPassStats {
    pub draw_calls: u32,
    pub rendered_chunks: u32,
    pub rendered_indices: u64,
    pub rendered_vertices: u64,
}

/// The capacity of a buffer that must hold `required` bytes: the least power of two that is
/// at least `required` and at least 4.
pub fn grow_capacity(required: u64) -> (r: u64)
    requires
        required <= 0x8000_0000_0000_0000,
    ensures
        exists|k: nat| r == pow2(k),
        r >= required,
        r >= 4,
        r < 2 * required || r == 4,
{
    let m: u64 = if required < 4 {
        4
    } else {
        required
    };
    let mut p: u64 = 1;
    let ghost mut k: nat = 0;
    assert(pow2(0) == 1) by {
        vstd::arithmetic::power2::lemma2_to64();
    }
    while p < m
        invariant
            4 <= m <= 0x8000_0000_0000_0000,
            m == if required < 4 {
                4
            } else {
                required
            },
            p == pow2(k),
            1 <= p,
            p < 2 * m,
            required < 4 ==> (p == 1 || p == 2 || p == 4),
        decreases 2 * m - p,
    {
        proof {
            lemma_pow2_unfold(k + 1);
        }
        p = p * 2;
        proof {
            k = k + 1;
        }
    }
    assert(p >= m);
    p
}

/// The byte capacities of a chunk's vertex and index buffers on the GPU.
#[derive(Debug, Clone, Copy, PartialEq, Eq, Structural)]
pub struct BufferCapacities {
    pub vertex_capacity_bytes: u64,
    pub index_capacity_bytes: u64,
}

/// The buffer bookkeeping of uploading a mesh of `vertex_bytes` and `index_bytes` bytes: a
/// buffer too small for its part is replaced by one of the grown capacity, each replacement
/// is counted, and every byte of the mesh is counted as uploaded.
pub fn plan_mesh_upload(caps: &mut BufferCapacities, vertex_bytes: u64, index_bytes: u64) -> (r: MeshUploadStats)
    requires
        vertex_bytes <= 0x8000_0000_0000_0000,
        index_bytes <= 0x8000_0000_0000_0000,
        vertex_bytes + index_bytes <= u64::MAX,
    ensures
        r.uploaded_bytes == vertex_bytes + index_bytes,
        r.buffer_reallocations == (if vertex_bytes > old(caps).vertex_capacity_bytes {
            1int
        } else {
            0int
        }) + (if index_bytes > old(caps).index_capacity_bytes {
            1int
        } else {
            0int
        }),
        vertex_bytes > old(caps).vertex_capacity_bytes ==> final(caps).vertex_capacity_bytes >= vertex_bytes
            && (exists|k: nat| final(caps).vertex_capacity_bytes == pow2(k))
            && (final(caps).vertex_capacity_bytes < 2 * vertex_bytes || final(caps).vertex_capacity_bytes == 4),
        vertex_bytes <= old(caps).vertex_capacity_bytes ==> final(caps).vertex_capacity_bytes == old(caps).vertex_capacity_bytes,
        index_bytes > old(caps).index_capacity_bytes ==> final(caps).index_capacity_bytes >= index_bytes
            && (exists|k: nat| final(caps).index_capacity_bytes == pow2(k))
            && (final(caps).index_capacity_bytes < 2 * index_bytes || final(caps).index_capacity_bytes == 4),
        index_bytes <= old(caps).index_capacity_bytes ==> final(caps).index_capacity_bytes == old(caps).index_capacity_bytes,
{
    let mut stats = MeshUploadStats { uploaded_bytes: vertex_bytes + index_bytes, buffer_reallocations: 0 };
    if vertex_bytes > caps.vertex_capacity_bytes {
        caps.vertex_capacity_bytes = grow_capacity(vertex_bytes);
        stats.buffer_reallocations = stats.buffer_reallocations + 1;
    }
    if index_bytes > caps.index_capacity_bytes {
        caps.index_capacity_bytes = grow_capacity(index_bytes);
        stats.buffer_reallocations = stats.buffer_reallocations + 1;
    }
    stats
}

} // verus!
