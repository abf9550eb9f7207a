//! World, chunk and chunk-local coordinates.

use vstd::prelude::*;

verus! {

/// Number of blocks along each edge of a chunk.
pub const CHUNK_SIZE: usize = 32;

/// Number of blocks in a chunk.
pub const CHUNK_VOLUME: usize = 32768;

/// Position of a chunk in chunk units.
#[derive(Clone, Copy, Debug, PartialEq, Eq, Hash, Structural)]
pub struct ChunkPos {
    pub x: i32,
    pub y: i32,
    pub z: i32,
}

/// Position of a block in world units.
#[derive(Clone, Copy, Debug, PartialEq, Eq, Hash, Structural)]
pub struct WorldPos {
    pub x: i32,
    pub y: i32,
    pub z: i32,
}

/// Position of a block inside its chunk; each coordinate is below `CHUNK_SIZE`.
#[derive(Clone, Copy, Debug, PartialEq, Eq, Hash, Structural)]
pub struct LocalPos {
    pub x: u8,
    pub y: u8,
    pub z: u8,
}

impl LocalPos {
    pub open spec fn in_bounds(self) -> bool {
        self.x < CHUNK_SIZE && self.y < CHUNK_SIZE && self.z < CHUNK_SIZE
    }
}

/// Chunk coordinate that holds the world coordinate `v` (floor division).
pub open spec fn spec_chunk_coord(v: int) -> int {
    v / (CHUNK_SIZE as int)
}

/// Offset of the world coordinate `v` inside its chunk (Euclidean remainder).
pub open spec fn spec_local_coord(v: int) -> int {
    v % (CHUNK_SIZE as int)
}

/// Index of a local position in a chunk's block array: `x` varies fastest, then `z`, then `y`.
pub open spec fn spec_local_index(x: int, y: int, z: int) -> int {
    x + z * (CHUNK_SIZE as int) + y * (CHUNK_SIZE as int) * (CHUNK_SIZE as int)
}

fn split_axis(v: i32) -> (res: (i32, u8))
    ensures
        res.0 as int == spec_chunk_coord(v as int),
        res.1 as int == spec_local_coord(v as int),
        res.1 < CHUNK_SIZE,
        v as int == res.0 as int * (CHUNK_SIZE as int) + res.1 as int,
{
    let shifted: u64 = (v as i64 + 2147483648i64) as u64;
    let q: u64 = shifted / 32;
    let r: u64 = shifted % 32;
    assert(shifted as int == v as int + 67108864 * 32);
    assert(v as int == (q as int - 67108864) * 32 + r as int);
    assert(q <= 134217727);
    (((q as i64) - 67108864i64) as i32, r as u8)
}

/// Splits a world position into the chunk that holds it and its offset in that chunk.
pub fn world_to_chunk(world: WorldPos) -> (res: (ChunkPos, LocalPos))
    ensures
        res.0.x as int == spec_chunk_coord(world.x as int),
        res.0.y as int == spec_chunk_coord(world.y as int),
        res.0.z as int == spec_chunk_coord(world.z as int),
        res.1.x as int == spec_local_coord(world.x as int),
        res.1.y as int == spec_local_coord(world.y as int),
        res.1.z as int == spec_local_coord(world.z as int),
        res.1.in_bounds(),
{
    let (cx, lx) = split_axis(world.x);
    let (cy, ly) = split_axis(world.y);
    let (cz, lz) = split_axis(world.z);
    (ChunkPos { x: cx, y: cy, z: cz }, LocalPos { x: lx, y: ly, z: lz })
}

/// Index of a local position in a chunk's block array.
pub fn local_to_index(local: LocalPos) -> (idx: usize)
    requires
        local.in_bounds(),
    ensures
        idx as int == spec_local_index(local.x as int, local.y as int, local.z as int),
        idx < CHUNK_VOLUME,
{
    let x = local.x as usize;
    let y = local.y as usize;
    let z = local.z as usize;
    assert(z * 32 <= 31 * 32) by (nonlinear_arith) requires z < 32;
    assert(y * 32 * 32 <= 31 * 32 * 32) by (nonlinear_arith) requires y < 32;
    x + z * CHUNK_SIZE + y * CHUNK_SIZE * CHUNK_SIZE
}

} // verus!
