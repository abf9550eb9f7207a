//! The chunks the server has been asked for and not yet dealt with.

use vstd::prelude::*;
use crate::coords::ChunkPos;
use crate::seq_facts::lemma_push_to_set;

verus! {

/// Chunk requests waiting to be processed, each position once.
pub struct ChunkManager {
    pending: Vec<ChunkPos>,
}

impl ChunkManager {
    /// The positions waiting.
    pub closed spec fn pending_set(&self) -> Set<ChunkPos> {
        self.pending@.to_set()
    }

    /// A manager with no request.
    pub fn new() -> (r: ChunkManager)
        ensures
            r.pending_set() == Set::<ChunkPos>::empty(),
    {
        let r = ChunkManager { pending: Vec::new() };
        assert(r.pending@.to_set() =~= Set::<ChunkPos>::empty());
        r
    }

    /// Records a request for the chunk at a position.
    pub fn request(&mut self, pos: ChunkPos)
        ensures
            final(self).pending_set() == old(self).pending_set().insert(pos),
    {
        let mut i: usize = 0;
        while i < self.pending.len()
            invariant
                i <= self.pending@.len(),
                self.pending@ == old(self).pending@,
                forall|k: int| 0 <= k < i ==> self.pending@[k] != pos,
            decreases self.pending@.len() - i,
        {
            if self.pending[i] == pos {
                assert(self.pending@.contains(pos));
                assert(old(self).pending_set().insert(pos) =~= old(self).pending_set());
                return;
            }
            i += 1;
        }
        let ghost before = self.pending@;
        self.pending.push(pos);
        proof {
            lemma_push_to_set(before, pos);
        }
    }

    /// Deals with every waiting request.
    pub fn process_requests(&mut self)
        ensures
            final(self).pending_set() == Set::<ChunkPos>::empty(),
    {
        self.pending.clear();
        assert(self.pending@.to_set() =~= Set::<ChunkPos>::empty());
    }
}

impl Default for ChunkManager {
    fn default() -> (r: ChunkManager)
        ensures
            r.pending_set() == Set::<ChunkPos>::empty(),
    {
        ChunkManager::new()
    }
}

} // verus!
