//! A map from chunk positions to chunks, kept as a list with one entry per position.

use vstd::prelude::*;
use crate::coords::{ChunkPos, LocalPos, CHUNK_VOLUME, spec_local_index};
use crate::chunk::{BlockId, ChunkData};

verus! {

/// The map that inserting each chunk in turn builds; a later chunk replaces an earlier one
/// at the same position.
pub open spec fn map_of(s: Seq<(ChunkPos, Seq<BlockId>)>) -> Map<ChunkPos, Seq<BlockId>>
    decreases s.len(),
{
    if s.len() == 0 {
        Map::empty()
    } else {
        map_of(s.drop_last()).insert(s.last().0, s.last().1)
    }
}

/// No two entries have the same position.
pub open spec fn distinct_positions<T>(s: Seq<(ChunkPos, T)>) -> bool {
    forall|i: int, j: int| 0 <= i < s.len() && 0 <= j < s.len() && i != j ==> s[i].0 != s[j].0
}

pub proof fn lemma_map_of_dom<T>(s: Seq<(ChunkPos, Seq<BlockId>)>, k: ChunkPos)
    ensures
        map_of(s).dom().contains(k) <==> exists|i: int| 0 <= i < s.len() && #[trigger] s[i].0 == k,
    decreases s.len(),
{
    if s.len() > 0 {
        lemma_map_of_dom::<T>(s.drop_last(), k);
        if map_of(s.drop_last()).dom().contains(k) {
            let i = choose|i: int| 0 <= i < s.drop_last().len() && #[trigger] s.drop_last()[i].0 == k;
            assert(s[i].0 == k);
        }
        if exists|i: int| 0 <= i < s.len() && #[trigger] s[i].0 == k {
            let i = choose|i: int| 0 <= i < s.len() && #[trigger] s[i].0 == k;
            if i < s.len() - 1 {
                assert(s.drop_last()[i].0 == k);
            }
        }
    }
}

pub proof fn lemma_map_of_at(s: Seq<(ChunkPos, Seq<BlockId>)>, i: int)
    requires
        distinct_positions(s),
        0 <= i < s.len(),
    ensures
        map_of(s).dom().contains(s[i].0),
        map_of(s)[s[i].0] == s[i].1,
    decreases s.len(),
{
    if i < s.len() - 1 {
        assert(s.drop_last()[i] == s[i]);
        lemma_map_of_at(s.drop_last(), i);
        assert(s.last().0 != s[i].0);
    }
}

pub proof fn lemma_map_of_update(s: Seq<(ChunkPos, Seq<BlockId>)>, i: int, v: Seq<BlockId>)
    requires
        distinct_positions(s),
        0 <= i < s.len(),
    ensures
        map_of(s.update(i, (s[i].0, v))) == map_of(s).insert(s[i].0, v),
    decreases s.len(),
{
    let t = s.update(i, (s[i].0, v));
    if i == s.len() - 1 {
        assert(t.drop_last() == s.drop_last());
        assert(map_of(s).insert(s[i].0, v) =~= map_of(s.drop_last()).insert(s[i].0, v));
    } else {
        assert(t.drop_last() == s.drop_last().update(i, (s[i].0, v)));
        assert(s.drop_last()[i] == s[i]);
        lemma_map_of_update(s.drop_last(), i, v);
        assert(s.last().0 != s[i].0);
        assert(map_of(t) =~= map_of(s).insert(s[i].0, v));
    }
}

pub proof fn lemma_map_of_len(s: Seq<(ChunkPos, Seq<BlockId>)>)
    requires
        distinct_positions(s),
    ensures
        map_of(s).dom().finite(),
        map_of(s).dom().len() == s.len(),
    decreases s.len(),
{
    if s.len() > 0 {
        lemma_map_of_len(s.drop_last());
        lemma_map_of_dom::<u8>(s.drop_last(), s.last().0);
        if map_of(s.drop_last()).dom().contains(s.last().0) {
            let i = choose|i: int| 0 <= i < s.drop_last().len() && #[trigger] s.drop_last()[i].0 == s.last().0;
            assert(s[i].0 == s[s.len() - 1].0);
        }
    }
}

pub proof fn lemma_map_of_remove(s: Seq<(ChunkPos, Seq<BlockId>)>, i: int)
    requires
        distinct_positions(s),
        0 <= i < s.len(),
    ensures
        map_of(s.remove(i)) == map_of(s).remove(s[i].0),
    decreases s.len(),
{
    let t = s.remove(i);
    if i == s.len() - 1 {
        assert(t =~= s.drop_last());
        lemma_map_of_dom::<u8>(s.drop_last(), s[i].0);
        if map_of(s.drop_last()).dom().contains(s[i].0) {
            let k = choose|k: int| 0 <= k < s.drop_last().len() && #[trigger] s.drop_last()[k].0 == s[i].0;
            assert(s[k].0 == s[i].0);
        }
        assert(map_of(s).remove(s[i].0) =~= map_of(s.drop_last()));
    } else {
        assert(t.drop_last() =~= s.drop_last().remove(i));
        assert(t.last() == s.last());
        assert(s.drop_last()[i] == s[i]);
        assert(distinct_positions(s.drop_last()));
        lemma_map_of_remove(s.drop_last(), i);
        assert(s.last().0 != s[i].0);
        assert(map_of(t) =~= map_of(s).remove(s[i].0));
    }
}

/// Chunks by position.
pub struct ChunkStore {
    chunks: Vec<(ChunkPos, ChunkData)>,
}

impl View for ChunkStore {
    type V = Map<ChunkPos, Seq<BlockId>>;

    closed spec fn view(&self) -> Map<ChunkPos, Seq<BlockId>> {
        map_of(self.entries())
    }
}

impl ChunkStore {
    /// The chunks with their blocks, in the order they are held and written.
    pub closed spec fn entries(&self) -> Seq<(ChunkPos, Seq<BlockId>)> {
        self.chunks@.map_values(|c: (ChunkPos, ChunkData)| (c.0, c.1@))
    }

    /// Positions are distinct and every chunk is full.
    pub closed spec fn wf(&self) -> bool {
        &&& distinct_positions(self.chunks@)
        &&& forall|i: int| 0 <= i < self.chunks@.len() ==> (#[trigger] self.chunks@[i]).1.wf()
    }

    /// Every held chunk is full, and the store holds at most one entry per position.
    pub proof fn lemma_wf(&self)
        requires
            self.wf(),
        ensures
            self@ == map_of(self.entries()),
            distinct_positions(self.entries()),
            self@.dom().finite(),
            self@.dom().len() == self.entries().len(),
            self.entries().len() <= usize::MAX,
            forall|i: int| 0 <= i < self.entries().len() ==> (#[trigger] self.entries()[i]).1.len() == crate::coords::CHUNK_VOLUME,
    {
        assert(self.chunks.len() == self.chunks@.len());
        assert(distinct_positions(self.entries())) by {
            assert forall|i: int, j: int|
                0 <= i < self.entries().len() && 0 <= j < self.entries().len() && i != j implies self.entries()[i].0 != self.entries()[j].0 by {
                assert(self.chunks@[i].0 != self.chunks@[j].0);
            }
        }
        lemma_map_of_len(self.entries());
        assert forall|i: int| 0 <= i < self.entries().len() implies (#[trigger] self.entries()[i]).1.len() == crate::coords::CHUNK_VOLUME by {
            assert(self.chunks@[i].1.wf());
            self.chunks@[i].1.lemma_wf_len();
        }
    }
}

impl ChunkStore {
    fn find(&self, pos: ChunkPos) -> (r: Option<usize>)
        ensures
            r matches Some(i) ==> i < self.chunks@.len() && self.chunks@[i as int].0 == pos,
            r is None ==> forall|i: int| 0 <= i < self.chunks@.len() ==> (#[trigger] self.chunks@[i]).0 != pos,
    {
        let mut i: usize = 0;
        while i < self.chunks.len()
            invariant
                i <= self.chunks@.len(),
                forall|k: int| 0 <= k < i ==> (#[trigger] self.chunks@[k]).0 != pos,
            decreases self.chunks@.len() - i,
        {
            if self.chunks[i].0 == pos {
                return Some(i);
            }
            i += 1;
        }
        None
    }

    /// Stores a chunk at a position, replacing the chunk held there.
    pub fn save_chunk(&mut self, pos: ChunkPos, chunk: &ChunkData)
        requires
            old(self).wf(),
            chunk.wf(),
        ensures
            final(self).wf(),
            final(self)@ == old(self)@.insert(pos, chunk@),
    {
        let copy = chunk.clone();
        let ghost old_entries = self.entries();
        match self.find(pos) {
            Some(i) => {
                self.chunks.set(i, (pos, copy));
                proof {
                    old(self).lemma_wf();
                    assert(self.entries() =~= old_entries.update(i as int, (pos, chunk@)));
                    lemma_map_of_update(old_entries, i as int, chunk@);
                }
            },
            None => {
                self.chunks.push((pos, copy));
                proof {
                    assert(self.entries() =~= old_entries.push((pos, chunk@)));
                    assert(self.entries().drop_last() =~= old_entries);
                }
            },
        }
    }

    /// The chunk held at a position.
    pub fn load_chunk(&self, pos: ChunkPos) -> (r: Option<ChunkData>)
        requires
            self.wf(),
        ensures
            r is Some <==> self@.dom().contains(pos),
            r matches Some(c) ==> c.wf() && c@ == self@[pos],
    {
        proof {
            self.lemma_wf();
            lemma_map_of_dom::<u8>(self.entries(), pos);
        }
        match self.find(pos) {
            Some(i) => {
                proof {
                    lemma_map_of_at(self.entries(), i as int);
                }
                Some(self.chunks[i].1.clone())
            },
            None => {
                proof {
                    if self@.dom().contains(pos) {
                        let k = choose|k: int| 0 <= k < self.entries().len() && #[trigger] self.entries()[k].0 == pos;
                        assert(self.chunks@[k].0 == pos);
                    }
                }
                None
            },
        }
    }

    /// Drops the chunk held at a position, if any.
    pub fn remove_chunk(&mut self, pos: ChunkPos)
        requires
            old(self).wf(),
        ensures
            final(self).wf(),
            final(self)@ == old(self)@.remove(pos),
    {
        let ghost old_entries = self.entries();
        proof {
            self.lemma_wf();
        }
        match self.find(pos) {
            Some(i) => {
                self.chunks.remove(i);
                proof {
                    assert(self.entries() =~= old_entries.remove(i as int));
                    lemma_map_of_remove(old_entries, i as int);
                    assert forall|a: int, b: int|
                        0 <= a < self.chunks@.len() && 0 <= b < self.chunks@.len() && a != b implies self.chunks@[a].0 != self.chunks@[b].0 by {
                        let a2 = if a < i { a } else { a + 1 };
                        let b2 = if b < i { b } else { b + 1 };
                        assert(self.chunks@[a] == old(self).chunks@[a2]);
                        assert(self.chunks@[b] == old(self).chunks@[b2]);
                    }
                    assert forall|k: int| 0 <= k < self.chunks@.len() implies (#[trigger] self.chunks@[k]).1.wf() by {
                        let k2 = if k < i { k } else { k + 1 };
                        assert(self.chunks@[k] == old(self).chunks@[k2]);
                    }
                }
            },
            None => {
                proof {
                    lemma_map_of_dom::<u8>(old_entries, pos);
                    if old(self)@.dom().contains(pos) {
                        let k = choose|k: int| 0 <= k < old_entries.len() && #[trigger] old_entries[k].0 == pos;
                        assert(self.chunks@[k].0 == pos);
                    }
                    assert(old(self)@.remove(pos) =~= old(self)@);
                }
            },
        }
    }

    /// The number of chunks held.
    pub fn chunk_count(&self) -> (n: usize)
        requires
            self.wf(),
        ensures
            n == self@.dom().len(),
    {
        proof {
            self.lemma_wf();
        }
        self.chunks.len()
    }

    /// The positions of the chunks held, each once.
    pub fn chunk_positions(&self) -> (r: Vec<ChunkPos>)
        requires
            self.wf(),
        ensures
            r@.no_duplicates(),
            r@.len() == self@.dom().len(),
            forall|p: ChunkPos| r@.contains(p) <==> self@.dom().contains(p),
    {
        proof {
            self.lemma_wf();
        }
        let mut r: Vec<ChunkPos> = Vec::new();
        let mut i: usize = 0;
        while i < self.chunks.len()
            invariant
                self.wf(),
                i <= self.chunks@.len(),
                r@ == self.entries().subrange(0, i as int).map_values(|c: (ChunkPos, Seq<BlockId>)| c.0),
            decreases self.chunks@.len() - i,
        {
            r.push(self.chunks[i].0);
            i += 1;
            assert(r@ =~= self.entries().subrange(0, i as int).map_values(|c: (ChunkPos, Seq<BlockId>)| c.0));
        }
        proof {
            assert(self.entries().subrange(0, i as int) == self.entries());
            assert forall|a: int, b: int| 0 <= a < r@.len() && 0 <= b < r@.len() && a != b implies r@[a] != r@[b] by {
                assert(self.chunks@[a].0 != self.chunks@[b].0);
            }
            assert forall|p: ChunkPos| r@.contains(p) <==> self@.dom().contains(p) by {
                lemma_map_of_dom::<u8>(self.entries(), p);
                if r@.contains(p) {
                    let k = choose|k: int| 0 <= k < r@.len() && r@[k] == p;
                    assert(self.entries()[k].0 == p);
                }
                if self@.dom().contains(p) {
                    let k = choose|k: int| 0 <= k < self.entries().len() && #[trigger] self.entries()[k].0 == p;
                    assert(r@[k] == p);
                }
            }
        }
        r
    }
}

impl ChunkStore {
    /// A store with no chunk.
    pub fn new() -> (r: ChunkStore)
        ensures
            r.wf(),
            r@ == Map::<ChunkPos, Seq<BlockId>>::empty(),
            r.entries().len() == 0,
    {
        let r = ChunkStore { chunks: Vec::new() };
        assert(r.entries() =~= Seq::<(ChunkPos, Seq<BlockId>)>::empty());
        r
    }

    /// The held entries, in order.
    pub fn items(&self) -> (r: &Vec<(ChunkPos, ChunkData)>)
        ensures
            r@.map_values(|c: (ChunkPos, ChunkData)| (c.0, c.1@)) == self.entries(),
            self.wf() ==> forall|i: int| 0 <= i < r@.len() ==> (#[trigger] r@[i]).1.wf(),
    {
        &self.chunks
    }
}

} // verus!
