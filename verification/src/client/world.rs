//! The chunks the client has received from the server.

use vstd::prelude::*;
use crate::coords::ChunkPos;
use crate::chunk::{BlockId, ChunkData};
use crate::chunk_store::ChunkStore;

verus! {

/// The client's copy of the world: the chunks it was sent, by position.
pub struct ClientWorld {
    pub loaded_chunks: ChunkStore,
}

impl ClientWorld {
    /// A world with no chunk.
    pub fn new() -> (r: ClientWorld)
        ensures
            r.loaded_chunks.wf(),
            r.loaded_chunks@ == Map::<ChunkPos, Seq<BlockId>>::empty(),
    {
        ClientWorld { loaded_chunks: ChunkStore::new() }
    }

    /// Holds a chunk the server sent, replacing the one held at its position.
    pub fn set_chunk(&mut self, pos: ChunkPos, chunk: ChunkData)
        requires
            old(self).loaded_chunks.wf(),
            chunk.wf(),
        ensures
            final(self).loaded_chunks.wf(),
            final(self).loaded_chunks@ == old(self).loaded_chunks@.insert(pos, chunk@),
    {
        self.loaded_chunks.save_chunk(pos, &chunk);
    }

    /// Drops the chunk at a position, if it is held.
    pub fn remove_chunk(&mut self, pos: &ChunkPos)
        requires
            old(self).loaded_chunks.wf(),
        ensures
            final(self).loaded_chunks.wf(),
            final(self).loaded_chunks@ == old(self).loaded_chunks@.remove(*pos),
    {
        self.loaded_chunks.remove_chunk(*pos);
    }
}

} // verus!
