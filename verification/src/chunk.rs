//! Block identifiers and the block storage of one chunk.

use vstd::prelude::*;
use crate::coords::{CHUNK_VOLUME, LocalPos, local_to_index, spec_local_index};

verus! {

/// Identifier of a block type; `0` is air.
#[derive(Clone, Copy, Debug, PartialEq, Eq, Hash, Structural)]
pub struct BlockId(pub u16);

/// The blocks of one chunk, indexed by `local_to_index`.
#[derive(Debug)]
pub struct ChunkData {
    blocks: Vec<BlockId>,
}

impl View for ChunkData {
    type V = Seq<BlockId>;

    closed spec fn view(&self) -> Seq<BlockId> {
        self.blocks@
    }
}

impl ChunkData {
    /// A chunk holds exactly `CHUNK_VOLUME` blocks.
    pub closed spec fn wf(self) -> bool {
        self.blocks@.len() == CHUNK_VOLUME
    }

    /// A well-formed chunk holds `CHUNK_VOLUME` blocks.
    pub proof fn lemma_wf_len(&self)
        requires
            self.wf(),
        ensures
            self@.len() == CHUNK_VOLUME,
    {
    }

    /// A chunk of air.
    pub fn new_empty() -> (chunk: ChunkData)
        ensures
            chunk.wf(),
            chunk@ == Seq::new(CHUNK_VOLUME as nat, |i: int| BlockId(0)),
    {
        let mut blocks: Vec<BlockId> = Vec::new();
        let mut i: usize = 0;
        while i < CHUNK_VOLUME
            invariant
                i <= CHUNK_VOLUME,
                blocks@ == Seq::new(i as nat, |k: int| BlockId(0)),
            decreases CHUNK_VOLUME - i,
        {
            blocks.push(BlockId(0));
            i += 1;
        }
        ChunkData { blocks }
    }

    /// Builds a chunk from its blocks; `None` unless there are exactly `CHUNK_VOLUME` of them.
    pub fn from_blocks(blocks: Vec<BlockId>) -> (res: Option<ChunkData>)
        ensures
            res is Some <==> blocks@.len() == CHUNK_VOLUME,
            res matches Some(c) ==> c@ == blocks@ && c.wf(),
    {
        if blocks.len() == CHUNK_VOLUME {
            Some(ChunkData { blocks })
        } else {
            None
        }
    }

    /// The block at `index`.
    pub fn get_index(&self, index: usize) -> (b: BlockId)
        requires
            self.wf(),
            index < CHUNK_VOLUME,
        ensures
            b == self@[index as int],
    {
        self.blocks[index]
    }

    /// Replaces the block at `index`.
    pub fn set_index(&mut self, index: usize, block: BlockId)
        requires
            old(self).wf(),
            index < CHUNK_VOLUME,
        ensures
            final(self).wf(),
            final(self)@ == old(self)@.update(index as int, block),
    {
        self.blocks.set(index, block);
    }

    /// The block at a local position.
    pub fn get(&self, local: LocalPos) -> (b: BlockId)
        requires
            self.wf(),
            local.in_bounds(),
        ensures
            b == self@[spec_local_index(local.x as int, local.y as int, local.z as int)],
    {
        self.get_index(local_to_index(local))
    }

    /// Replaces the block at a local position.
    pub fn set(&mut self, local: LocalPos, block: BlockId)
        requires
            old(self).wf(),
            local.in_bounds(),
        ensures
            final(self).wf(),
            final(self)@ == old(self)@.update(
                spec_local_index(local.x as int, local.y as int, local.z as int),
                block,
            ),
    {
        let idx = local_to_index(local);
        self.set_index(idx, block);
    }

    /// The blocks in index order.
    pub fn blocks(&self) -> (res: &Vec<BlockId>)
        ensures
            res@ == self@,
            self.wf() ==> res@.len() == CHUNK_VOLUME,
    {
        &self.blocks
    }
}

impl Clone for ChunkData {
    /// A chunk with the same blocks.
    fn clone(&self) -> (res: ChunkData)
        ensures
            res@ == self@,
            res.wf() == self.wf(),
    {
        let mut blocks: Vec<BlockId> = Vec::new();
        let mut i: usize = 0;
        while i < self.blocks.len()
            invariant
                i <= self.blocks@.len(),
                blocks@ == self.blocks@.subrange(0, i as int),
            decreases self.blocks@.len() - i,
        {
            blocks.push(self.blocks[i]);
            i += 1;
        }
        assert(blocks@ == self.blocks@);
        ChunkData { blocks }
    }
}

} // verus!
