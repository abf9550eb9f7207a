//! How the mesher reads a block next to a chunk: inside the chunk from the chunk itself,
//! just across one face from the neighbour on that side, and otherwise as air.

use vstd::prelude::*;
use crate::coords::{LocalPos, local_to_index, spec_local_index};
use crate::chunk::{BlockId, ChunkData};

verus! {

/// The chunks next to a chunk across each of its faces, where they are loaded.
pub struct ChunkNeighbors<'a> {
    pub pos_x: Option<&'a ChunkData>,
    pub neg_x: Option<&'a ChunkData>,
    pub pos_y: Option<&'a ChunkData>,
    pub neg_y: Option<&'a ChunkData>,
    pub pos_z: Option<&'a ChunkData>,
    pub neg_z: Option<&'a ChunkData>,
}

/// A coordinate lies inside a chunk.
pub open spec fn inside(v: int) -> bool {
    0 <= v < 32
}

/// Which side of a chunk a coordinate lies past: -1 below, 1 above, 0 inside.
pub open spec fn side_of(v: int) -> int {
    if v < 0 {
        -1
    } else if v >= 32 {
        1
    } else {
        0
    }
}

/// A coordinate moved into the chunk across the side it lies past.
pub open spec fn wrapped(v: int) -> int {
    if v < 0 {
        v + 32
    } else if v >= 32 {
        v - 32
    } else {
        v
    }
}

/// The neighbour a position outside the chunk is read from: the one across the single face
/// it lies past; none when it lies past more than one face.
pub open spec fn neighbor_across<'a>(n: ChunkNeighbors<'a>, x: int, y: int, z: int) -> Option<&'a ChunkData> {
    let (ox, oy, oz) = (side_of(x), side_of(y), side_of(z));
    if ox == -1 && oy == 0 && oz == 0 {
        n.neg_x
    } else if ox == 1 && oy == 0 && oz == 0 {
        n.pos_x
    } else if ox == 0 && oy == -1 && oz == 0 {
        n.neg_y
    } else if ox == 0 && oy == 1 && oz == 0 {
        n.pos_y
    } else if ox == 0 && oy == 0 && oz == -1 {
        n.neg_z
    } else if ox == 0 && oy == 0 && oz == 1 {
        n.pos_z
    } else {
        None
    }
}

/// The block the mesher reads at a position relative to the chunk.
pub open spec fn sampled_block<'a>(chunk: Seq<BlockId>, n: ChunkNeighbors<'a>, x: int, y: int, z: int) -> BlockId {
    if inside(x) && inside(y) && inside(z) {
        chunk[spec_local_index(x, y, z)]
    } else {
        match neighbor_across(n, x, y, z) {
            Some(c) => c@[spec_local_index(wrapped(x), wrapped(y), wrapped(z))],
            None => BlockId(0),
        }
    }
}

/// The neighbours that are loaded are full chunks.
pub open spec fn neighbors_wf<'a>(n: ChunkNeighbors<'a>) -> bool {
    &&& (n.pos_x matches Some(c) ==> c.wf())
    &&& (n.neg_x matches Some(c) ==> c.wf())
    &&& (n.pos_y matches Some(c) ==> c.wf())
    &&& (n.neg_y matches Some(c) ==> c.wf())
    &&& (n.pos_z matches Some(c) ==> c.wf())
    &&& (n.neg_z matches Some(c) ==> c.wf())
}

/// Whether a coordinate lies inside a chunk.
pub fn in_chunk_bounds(value: i32) -> (r: bool)
    ensures
        r == inside(value as int),
{
    0 <= value && value < 32
}

/// Which side of a chunk a coordinate lies past: -1 below, 1 above, 0 inside.
pub fn axis_out(value: i32) -> (r: i8)
    ensures
        r as int == side_of(value as int),
{
    if value < 0 {
        -1
    } else if value >= 32 {
        1
    } else {
        0
    }
}

/// A coordinate moved into the chunk across the side it lies past.
pub fn wrap_to_local(value: i32) -> (r: i32)
    ensures
        r as int == wrapped(value as int),
{
    if value < 0 {
        value + 32
    } else if value >= 32 {
        value - 32
    } else {
        value
    }
}

/// The block at a position inside a chunk.
pub fn sample_chunk_local(chunk: &ChunkData, x: i32, y: i32, z: i32) -> (r: BlockId)
    requires
        chunk.wf(),
        inside(x as int),
        inside(y as int),
        inside(z as int),
    ensures
        r == chunk@[spec_local_index(x as int, y as int, z as int)],
{
    let local = LocalPos { x: x as u8, y: y as u8, z: z as u8 };
    chunk.get_index(local_to_index(local))
}

/// The block the mesher reads at a position relative to the chunk: from the chunk itself
/// inside it, from the neighbour across the one face it lies past, and air otherwise.
pub fn sample_block(chunk: &ChunkData, neighbors: &ChunkNeighbors<'_>, coords: [i32; 3]) -> (r: BlockId)
    requires
        chunk.wf(),
        neighbors_wf(*neighbors),
        neighbor_across(*neighbors, coords@[0] as int, coords@[1] as int, coords@[2] as int) is Some ==> {
            &&& inside(wrapped(coords@[0] as int))
            &&& inside(wrapped(coords@[1] as int))
            &&& inside(wrapped(coords@[2] as int))
        },
    ensures
        r == sampled_block(chunk@, *neighbors, coords@[0] as int, coords@[1] as int, coords@[2] as int),
{
    let x = coords[0];
    let y = coords[1];
    let z = coords[2];
    if in_chunk_bounds(x) && in_chunk_bounds(y) && in_chunk_bounds(z) {
        return sample_chunk_local(chunk, x, y, z);
    }
    let x_out = axis_out(x);
    let y_out = axis_out(y);
    let z_out = axis_out(z);
    let neighbor = if x_out == -1 && y_out == 0 && z_out == 0 {
        neighbors.neg_x
    } else if x_out == 1 && y_out == 0 && z_out == 0 {
        neighbors.pos_x
    } else if x_out == 0 && y_out == -1 && z_out == 0 {
        neighbors.neg_y
    } else if x_out == 0 && y_out == 1 && z_out == 0 {
        neighbors.pos_y
    } else if x_out == 0 && y_out == 0 && z_out == -1 {
        neighbors.neg_z
    } else if x_out == 0 && y_out == 0 && z_out == 1 {
        neighbors.pos_z
    } else {
        None
    };
    match neighbor {
        Some(neighbor_chunk) => {
            let nx = wrap_to_local(x);
            let ny = wrap_to_local(y);
            let nz = wrap_to_local(z);
            sample_chunk_local(neighbor_chunk, nx, ny, nz)
        },
        None => BlockId(0),
    }
}

} // verus!
