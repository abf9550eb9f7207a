//! The server's world: the chunks held in memory, the chunks changed since they were last
//! saved, the world's tick, and how chunks come in from and go out to the region files.
//!
//! Generating a new chunk and simulating water are done by the caller, which hands the
//! results in.

use vstd::prelude::*;
use crate::coords::{
    ChunkPos, WorldPos, world_to_chunk, local_to_index, spec_chunk_coord, spec_local_coord,
    spec_local_index, CHUNK_VOLUME,
};
use crate::chunk::{BlockId, ChunkData};
use crate::chunk_store::ChunkStore;
use crate::persistence::{
    PersistenceLayer, RegionMissing, FlushRequest, PersistError, spec_region_coords, spec_region_path,
};
use crate::chunk_store::map_of;
use crate::region::{RegionError, RegionFailure, region_failure, region_file_bytes, stored_of};
use crate::seq_facts::{lemma_push_contains, lemma_push_to_set};

verus! {

/// The seed the server's world is generated from.
pub const DEFAULT_WORLD_SEED: u64 = 0xC0FFEE;

/// The chunk that holds a world position.
pub open spec fn chunk_of(w: WorldPos) -> ChunkPos {
    ChunkPos {
        x: spec_chunk_coord(w.x as int) as i32,
        y: spec_chunk_coord(w.y as int) as i32,
        z: spec_chunk_coord(w.z as int) as i32,
    }
}

/// The index of a world position in its chunk's blocks.
pub open spec fn index_in_chunk(w: WorldPos) -> int {
    spec_local_index(
        spec_local_coord(w.x as int),
        spec_local_coord(w.y as int),
        spec_local_coord(w.z as int),
    )
}

/// The block at a world position among the given chunks.
pub open spec fn block_at(chunks: Map<ChunkPos, Seq<BlockId>>, w: WorldPos) -> BlockId {
    chunks[chunk_of(w)][index_in_chunk(w)]
}

proof fn lemma_axis(v: int)
    ensures
        v == spec_chunk_coord(v) * 32 + spec_local_coord(v),
        0 <= spec_local_coord(v) < 32,
{
}

/// Two world positions in the same chunk at the same index are the same position.
pub proof fn lemma_block_position_unique(a: WorldPos, b: WorldPos)
    requires
        chunk_of(a) == chunk_of(b),
        index_in_chunk(a) == index_in_chunk(b),
    ensures
        a == b,
{
    lemma_axis(a.x as int);
    lemma_axis(a.y as int);
    lemma_axis(a.z as int);
    lemma_axis(b.x as int);
    lemma_axis(b.y as int);
    lemma_axis(b.z as int);
    assert(spec_chunk_coord(a.x as int) == spec_chunk_coord(b.x as int));
    assert(spec_chunk_coord(a.y as int) == spec_chunk_coord(b.y as int));
    assert(spec_chunk_coord(a.z as int) == spec_chunk_coord(b.z as int));
}

fn contains_pos(v: &Vec<ChunkPos>, pos: ChunkPos) -> (r: bool)
    ensures
        r == v@.contains(pos),
{
    let mut i: usize = 0;
    while i < v.len()
        invariant
            i <= v@.len(),
            forall|k: int| 0 <= k < i ==> v@[k] != pos,
        decreases v@.len() - i,
    {
        if v[i] == pos {
            assert(v@[i as int] == pos);
            return true;
        }
        i += 1;
    }
    false
}

/// The chunk and offset that `world_to_chunk` gives are `chunk_of` and the local coordinates.
pub proof fn lemma_chunk_of_pos(w: WorldPos)
    ensures
        chunk_of(w).x as int == spec_chunk_coord(w.x as int),
        chunk_of(w).y as int == spec_chunk_coord(w.y as int),
        chunk_of(w).z as int == spec_chunk_coord(w.z as int),
        0 <= spec_local_coord(w.x as int) < 32,
        0 <= spec_local_coord(w.y as int) < 32,
        0 <= spec_local_coord(w.z as int) < 32,
{
    lemma_axis(w.x as int);
    lemma_axis(w.y as int);
    lemma_axis(w.z as int);
}

proof fn lemma_chunk_of(w: WorldPos)
    ensures
        chunk_of(w).x as int == spec_chunk_coord(w.x as int),
        chunk_of(w).y as int == spec_chunk_coord(w.y as int),
        chunk_of(w).z as int == spec_chunk_coord(w.z as int),
        0 <= index_in_chunk(w) < CHUNK_VOLUME,
{
    lemma_axis(w.x as int);
    lemma_axis(w.y as int);
    lemma_axis(w.z as int);
}

/// Where a chunk that was asked for came from.
#[derive(Debug)]
pub enum ChunkSource {
    /// It was in memory already.
    AlreadyLoaded,
    /// It was read from its open region.
    LoadedFromRegion,
    /// Its region is not open: read the file, open the region, and ask again.
    ReadRegion(RegionMissing),
    /// No region holds it: generate it and hand it to `store_generated`.
    Generate,
}

/// The save failed because the region at `coords` is not open.
pub open spec fn is_missing_region(e: PersistError, coords: (i32, i32)) -> bool {
    e matches PersistError::RegionMissing(m) && m.coords == coords
}

/// The save failed because the region's contents could not be compressed.
pub open spec fn is_compress_failure(e: PersistError) -> bool {
    e matches PersistError::Region(re) && region_failure(re) == RegionFailure::Compress
}

/// A write made by saving the changed chunks: its chunk was changed, held, and in an open
/// region; it goes to that region's file, and it is the file of a region that holds the chunk
/// as it was held.
pub open spec fn saved_write(
    w: (ChunkPos, FlushRequest),
    dirty: Set<ChunkPos>,
    loaded: Map<ChunkPos, Seq<BlockId>>,
    persistence: PersistenceLayer,
) -> bool {
    let p = w.0;
    &&& dirty.contains(p)
    &&& loaded.dom().contains(p)
    &&& persistence.region_chunks(spec_region_coords(p)) is Some
    &&& w.1.path@ == spec_region_path(persistence.spec_world_dir(), spec_region_coords(p))
    &&& exists|e: Seq<(ChunkPos, Seq<BlockId>)>|
        w.1.bytes@ == region_file_bytes(stored_of(e)) && #[trigger] map_of(e).dom().contains(p) && map_of(e)[p]
            == loaded[p]
}

/// What saving the changed chunks did.
#[derive(Debug)]
pub struct SaveReport {
    /// The region files to write, in order: for each chunk saved, its position and its
    /// region's file as it stood just after.
    pub writes: Vec<(ChunkPos, FlushRequest)>,
    /// The chunks that could not be saved, which stay changed.
    pub failed: Vec<(ChunkPos, PersistError)>,
    /// The contents of every open region's file, or why they could not be made.
    pub flushed: Result<Vec<FlushRequest>, RegionError>,
}

/// The server's world.
pub struct ServerWorld {
    loaded: ChunkStore,
    pub tick_count: u64,
    dirty: Vec<ChunkPos>,
    registry_len: usize,
}

impl ServerWorld {
    /// The chunks held in memory.
    pub closed spec fn loaded_view(&self) -> Map<ChunkPos, Seq<BlockId>> {
        self.loaded@
    }

    /// The chunks changed since they were last saved.
    pub closed spec fn dirty_set(&self) -> Set<ChunkPos> {
        self.dirty@.to_set()
    }

    /// The world's tick count.
    pub closed spec fn spec_tick(&self) -> u64 {
        self.tick_count
    }

    /// The number of known block ids.
    pub closed spec fn spec_registry_len(&self) -> nat {
        self.registry_len as nat
    }

    /// Chunks held are full, and each changed chunk is listed once.
    pub closed spec fn wf(&self) -> bool {
        &&& self.loaded.wf()
        &&& self.dirty@.no_duplicates()
    }

    /// The chunks held are full.
    pub proof fn lemma_wf(&self)
        requires
            self.wf(),
        ensures
            self.loaded_view().dom().finite(),
            forall|p: ChunkPos| #[trigger] self.loaded_view().dom().contains(p) ==> self.loaded_view()[p].len() == CHUNK_VOLUME,
    {
        self.loaded.lemma_wf();
        assert forall|p: ChunkPos| #[trigger] self.loaded_view().dom().contains(p) implies self.loaded_view()[p].len() == CHUNK_VOLUME by {
            crate::chunk_store::lemma_map_of_dom::<u8>(self.loaded.entries(), p);
            let k = choose|k: int| 0 <= k < self.loaded.entries().len() && #[trigger] self.loaded.entries()[k].0 == p;
            crate::chunk_store::lemma_map_of_at(self.loaded.entries(), k);
        }
    }

    /// An empty world over a block registry of `registry_len` blocks.
    pub fn new(registry_len: usize) -> (r: ServerWorld)
        ensures
            r.wf(),
            r.loaded_view() == Map::<ChunkPos, Seq<BlockId>>::empty(),
            r.dirty_set() == Set::<ChunkPos>::empty(),
            r.spec_tick() == 0,
            r.spec_registry_len() == registry_len,
    {
        let r = ServerWorld { loaded: ChunkStore::new(), tick_count: 0, dirty: Vec::new(), registry_len };
        assert(r.dirty@.to_set() =~= Set::<ChunkPos>::empty());
        r
    }

    /// Advances the world's tick, stopping at the largest count.
    pub fn tick(&mut self)
        ensures
            final(self).spec_tick() == if old(self).spec_tick() == u64::MAX {
                u64::MAX
            } else {
                (old(self).spec_tick() + 1) as u64
            },
            final(self).loaded_view() == old(self).loaded_view(),
            final(self).dirty_set() == old(self).dirty_set(),
            final(self).spec_registry_len() == old(self).spec_registry_len(),
            final(self).wf() == old(self).wf(),
    {
        self.tick_count = self.tick_count.saturating_add(1);
    }

    /// The seed the world is generated from.
    pub fn world_seed(&self) -> (r: u64)
        ensures
            r == DEFAULT_WORLD_SEED,
    {
        DEFAULT_WORLD_SEED
    }

    /// Whether a block id names a known block.
    pub fn is_valid_block(&self, block: BlockId) -> (r: bool)
        ensures
            r == (block.0 < self.spec_registry_len()),
    {
        (block.0 as usize) < self.registry_len
    }

    /// Whether the chunk at a position is in memory.
    pub fn is_loaded(&self, pos: ChunkPos) -> (r: bool)
        requires
            self.wf(),
        ensures
            r == self.loaded_view().dom().contains(pos),
    {
        self.loaded.load_chunk(pos).is_some()
    }

    /// The positions of the chunks in memory, each once.
    pub fn loaded_positions(&self) -> (r: Vec<ChunkPos>)
        requires
            self.wf(),
        ensures
            r@.no_duplicates(),
            forall|p: ChunkPos| r@.contains(p) <==> self.loaded_view().dom().contains(p),
    {
        self.loaded.chunk_positions()
    }

    /// A copy of the chunk at a position, if it is in memory.
    pub fn loaded_chunk(&self, pos: ChunkPos) -> (r: Option<ChunkData>)
        requires
            self.wf(),
        ensures
            r is Some <==> self.loaded_view().dom().contains(pos),
            r matches Some(c) ==> c.wf() && c@ == self.loaded_view()[pos],
    {
        self.loaded.load_chunk(pos)
    }

    /// Holds a chunk in memory at a position, replacing the one held there.
    pub fn insert_loaded_chunk(&mut self, pos: ChunkPos, chunk: &ChunkData)
        requires
            old(self).wf(),
            chunk.wf(),
        ensures
            final(self).wf(),
            final(self).loaded_view() == old(self).loaded_view().insert(pos, chunk@),
            final(self).dirty_set() == old(self).dirty_set(),
            final(self).spec_tick() == old(self).spec_tick(),
            final(self).spec_registry_len() == old(self).spec_registry_len(),
    {
        self.loaded.save_chunk(pos, chunk);
    }

    fn mark_dirty(&mut self, pos: ChunkPos)
        requires
            old(self).wf(),
        ensures
            final(self).wf(),
            final(self).dirty_set() == old(self).dirty_set().insert(pos),
            final(self).loaded_view() == old(self).loaded_view(),
            final(self).spec_tick() == old(self).spec_tick(),
            final(self).spec_registry_len() == old(self).spec_registry_len(),
    {
        if contains_pos(&self.dirty, pos) {
            assert(self.dirty@.to_set().insert(pos) =~= self.dirty@.to_set());
            return;
        }
        let ghost before = self.dirty@;
        self.dirty.push(pos);
        proof {
            assert(self.dirty@ == before.push(pos));
            lemma_push_to_set(before, pos);
            assert forall|a: int, b: int| 0 <= a < b < self.dirty@.len() implies self.dirty@[a] != self.dirty@[b] by {
                if b == before.len() {
                    assert(before[a] != pos);
                }
            }
        }
    }

    /// Marks the chunks holding the given world positions as changed (after water moved there).
    pub fn record_water_changes(&mut self, positions: &[WorldPos])
        requires
            old(self).wf(),
        ensures
            final(self).wf(),
            final(self).dirty_set() == old(self).dirty_set() + positions@.map_values(
                |w: WorldPos| chunk_of(w),
            ).to_set(),
            final(self).loaded_view() == old(self).loaded_view(),
            final(self).spec_tick() == old(self).spec_tick(),
            final(self).spec_registry_len() == old(self).spec_registry_len(),
    {
        let mut i: usize = 0;
        while i < positions.len()
            invariant
                i <= positions@.len(),
                self.wf(),
                self.dirty_set() == old(self).dirty_set() + positions@.subrange(0, i as int).map_values(
                    |w: WorldPos| chunk_of(w),
                ).to_set(),
                self.loaded_view() == old(self).loaded_view(),
                self.tick_count == old(self).spec_tick(),
                self.spec_registry_len() == old(self).spec_registry_len(),
            decreases positions@.len() - i,
        {
            let (chunk_pos, _) = world_to_chunk(positions[i]);
            proof {
                lemma_chunk_of(positions@[i as int]);
            }
            assert(chunk_pos == chunk_of(positions@[i as int]));
            self.mark_dirty(chunk_pos);
            let ghost before = positions@.subrange(0, i as int).map_values(|w: WorldPos| chunk_of(w));
            i += 1;
            proof {
                let after = positions@.subrange(0, i as int).map_values(|w: WorldPos| chunk_of(w));
                assert(after =~= before.push(chunk_pos));
                lemma_push_to_set(before, chunk_pos);
                assert(self.dirty_set() =~= old(self).dirty_set() + after.to_set());
            }
        }
        assert(positions@.subrange(0, i as int) =~= positions@);
    }

    /// The changed chunks, each once.
    pub fn dirty_positions(&self) -> (r: Vec<ChunkPos>)
        requires
            self.wf(),
        ensures
            r@.no_duplicates(),
            r@.to_set() == self.dirty_set(),
    {
        let mut r: Vec<ChunkPos> = Vec::new();
        let mut i: usize = 0;
        while i < self.dirty.len()
            invariant
                i <= self.dirty@.len(),
                r@ == self.dirty@.subrange(0, i as int),
            decreases self.dirty@.len() - i,
        {
            r.push(self.dirty[i]);
            i += 1;
            assert(r@ =~= self.dirty@.subrange(0, i as int));
        }
        assert(r@ =~= self.dirty@);
        proof {
            assert(self.wf());
        }
        r
    }

    /// The block at a world position, whose chunk is in memory.
    pub fn get_block(&self, world_pos: WorldPos) -> (r: BlockId)
        requires
            self.wf(),
            self.loaded_view().dom().contains(chunk_of(world_pos)),
        ensures
            r == block_at(self.loaded_view(), world_pos),
    {
        let (chunk_pos, local) = world_to_chunk(world_pos);
        proof {
            lemma_chunk_of(world_pos);
            self.lemma_wf();
        }
        assert(chunk_pos == chunk_of(world_pos));
        let chunk = self.loaded.load_chunk(chunk_pos).unwrap();
        chunk.get(local)
    }

    /// Replaces the block at a world position, whose chunk is in memory, and marks the chunk
    /// changed; gives back the block that was there. Afterwards the position holds `block`
    /// and every other position holds what it held.
    pub fn set_block(&mut self, world_pos: WorldPos, block: BlockId) -> (previous: BlockId)
        requires
            old(self).wf(),
            old(self).loaded_view().dom().contains(chunk_of(world_pos)),
        ensures
            final(self).wf(),
            previous == block_at(old(self).loaded_view(), world_pos),
            final(self).loaded_view() == old(self).loaded_view().insert(
                chunk_of(world_pos),
                old(self).loaded_view()[chunk_of(world_pos)].update(index_in_chunk(world_pos), block),
            ),
            block_at(final(self).loaded_view(), world_pos) == block,
            forall|w: WorldPos|
                w != world_pos && old(self).loaded_view().dom().contains(#[trigger] chunk_of(w))
                    ==> block_at(final(self).loaded_view(), w) == block_at(old(self).loaded_view(), w),
            final(self).dirty_set() == old(self).dirty_set().insert(chunk_of(world_pos)),
            final(self).spec_tick() == old(self).spec_tick(),
            final(self).spec_registry_len() == old(self).spec_registry_len(),
    {
        let (chunk_pos, local) = world_to_chunk(world_pos);
        proof {
            lemma_chunk_of(world_pos);
            self.lemma_wf();
        }
        assert(chunk_pos == chunk_of(world_pos));
        let mut chunk = self.loaded.load_chunk(chunk_pos).unwrap();
        let previous = chunk.get(local);
        chunk.set(local, block);
        self.loaded.save_chunk(chunk_pos, &chunk);
        self.mark_dirty(chunk_pos);
        proof {
            assert forall|w: WorldPos|
                w != world_pos && old(self).loaded_view().dom().contains(#[trigger] chunk_of(w))
                    implies block_at(self.loaded_view(), w) == block_at(old(self).loaded_view(), w) by {
                if chunk_of(w) == chunk_pos {
                    if index_in_chunk(w) == index_in_chunk(world_pos) {
                        lemma_block_position_unique(w, world_pos);
                    }
                }
            }
        }
        previous
    }

    /// Where the chunk at `pos` comes from: memory, its open region (it is then held in
    /// memory), its region's file (not open yet), or the generator.
    pub fn prepare_chunk(&mut self, pos: ChunkPos, persistence: Option<&PersistenceLayer>) -> (r: ChunkSource)
        requires
            old(self).wf(),
            persistence matches Some(p) ==> p.wf(),
        ensures
            final(self).wf(),
            final(self).dirty_set() == old(self).dirty_set(),
            final(self).spec_tick() == old(self).spec_tick(),
            final(self).spec_registry_len() == old(self).spec_registry_len(),
            old(self).loaded_view().dom().contains(pos) ==> r is AlreadyLoaded && final(self).loaded_view() == old(self).loaded_view(),
            !old(self).loaded_view().dom().contains(pos) ==> match persistence {
                None => r is Generate && final(self).loaded_view() == old(self).loaded_view(),
                Some(p) => match p.region_chunks(spec_region_coords(pos)) {
                    None => (r matches ChunkSource::ReadRegion(m) && m.coords == spec_region_coords(pos))
                        && final(self).loaded_view() == old(self).loaded_view(),
                    Some(region) => if region.dom().contains(pos) {
                        r is LoadedFromRegion && final(self).loaded_view() == old(self).loaded_view().insert(pos, region[pos])
                    } else {
                        r is Generate && final(self).loaded_view() == old(self).loaded_view()
                    },
                },
            },
    {
        if self.is_loaded(pos) {
            return ChunkSource::AlreadyLoaded;
        }
        match persistence {
            None => ChunkSource::Generate,
            Some(p) => match p.load_chunk(pos) {
                Ok(Some(chunk)) => {
                    self.insert_loaded_chunk(pos, &chunk);
                    ChunkSource::LoadedFromRegion
                },
                Ok(None) => ChunkSource::Generate,
                Err(missing) => ChunkSource::ReadRegion(missing),
            },
        }
    }

    /// Saves a freshly generated chunk to its region, when there is persistence, and holds
    /// it in memory. Gives back what the save did.
    pub fn store_generated(
        &mut self,
        pos: ChunkPos,
        chunk: &ChunkData,
        persistence: &mut Option<PersistenceLayer>,
    ) -> (r: Option<Result<FlushRequest, PersistError>>)
        requires
            old(self).wf(),
            chunk.wf(),
            (*old(persistence)) matches Some(p) ==> p.wf(),
        ensures
            final(self).wf(),
            final(self).loaded_view() == old(self).loaded_view().insert(pos, chunk@),
            final(self).dirty_set() == old(self).dirty_set(),
            final(self).spec_tick() == old(self).spec_tick(),
            final(self).spec_registry_len() == old(self).spec_registry_len(),
            r is None <==> (*old(persistence)) is None,
            (*old(persistence)) is None ==> (*final(persistence)) is None,
            (*old(persistence)) matches Some(p) ==> {
                &&& (*final(persistence)) matches Some(q) && q.wf() && q.spec_world_dir() == p.spec_world_dir()
                &&& (p.region_chunks(spec_region_coords(pos)) is None ==> (r matches Some(Err(e))
                    && is_missing_region(e, spec_region_coords(pos))))
                &&& (p.region_chunks(spec_region_coords(pos)) is Some
                    ==> (*final(persistence))->Some_0.stored_chunk(pos) == Some(chunk@))
                &&& (p.region_chunks(spec_region_coords(pos)) is Some ==> (r matches Some(Ok(req))
                    && req.path@ == spec_region_path(p.spec_world_dir(), spec_region_coords(pos))
                    && req.bytes@ == region_file_bytes(
                    stored_of((*final(persistence))->Some_0.region_entries(spec_region_coords(pos))->Some_0),
                )))
            },
    {
        let result = match persistence {
            Some(p) => Some(p.save_chunk(pos, chunk)),
            None => None,
        };
        self.insert_loaded_chunk(pos, chunk);
        result
    }

    /// The regions that must be opened before the changed chunks can be saved.
    pub fn regions_to_open(&self, persistence: &PersistenceLayer) -> (r: Vec<RegionMissing>)
        requires
            self.wf(),
            persistence.wf(),
        ensures
            forall|i: int| 0 <= i < r@.len() ==> persistence.region_chunks((#[trigger] r@[i]).coords) is None,
            forall|p: ChunkPos|
                self.dirty_set().contains(p) && self.loaded_view().dom().contains(p)
                    && persistence.region_chunks(#[trigger] spec_region_coords(p)) is None
                    ==> exists|i: int| 0 <= i < r@.len() && r@[i].coords == spec_region_coords(p),
    {
        let mut r: Vec<RegionMissing> = Vec::new();
        let mut i: usize = 0;
        while i < self.dirty.len()
            invariant
                self.wf(),
                persistence.wf(),
                i <= self.dirty@.len(),
                forall|k: int| 0 <= k < r@.len() ==> persistence.region_chunks((#[trigger] r@[k]).coords) is None,
                forall|k: int|
                    0 <= k < i && self.loaded_view().dom().contains(self.dirty@[k])
                        && persistence.region_chunks(#[trigger] spec_region_coords(self.dirty@[k])) is None
                        ==> exists|j: int| 0 <= j < r@.len() && r@[j].coords == spec_region_coords(self.dirty@[k]),
            decreases self.dirty@.len() - i,
        {
            let pos = self.dirty[i];
            if self.is_loaded(pos) {
                match persistence.load_chunk(pos) {
                    Err(missing) => {
                        let ghost before = r@;
                        r.push(missing);
                        proof {
                            assert(r@[before.len() as int].coords == spec_region_coords(pos));
                            assert forall|k: int|
                                0 <= k < i + 1 && self.loaded_view().dom().contains(self.dirty@[k])
                                    && persistence.region_chunks(#[trigger] spec_region_coords(self.dirty@[k])) is None
                                    implies exists|j: int| 0 <= j < r@.len() && r@[j].coords == spec_region_coords(self.dirty@[k]) by {
                                if k < i {
                                    let j = choose|j: int| 0 <= j < before.len() && before[j].coords == spec_region_coords(self.dirty@[k]);
                                    assert(r@[j] == before[j]);
                                } else {
                                    assert(r@[before.len() as int].coords == spec_region_coords(self.dirty@[k]));
                                }
                            }
                        }
                    },
                    Ok(_) => {},
                }
            }
            i += 1;
        }
        proof {
            assert forall|p: ChunkPos|
                self.dirty_set().contains(p) && self.loaded_view().dom().contains(p)
                    && persistence.region_chunks(#[trigger] spec_region_coords(p)) is None
                    implies exists|j: int| 0 <= j < r@.len() && r@[j].coords == spec_region_coords(p) by {
                assert(self.dirty@.contains(p));
                let k = choose|k: int| 0 <= k < self.dirty@.len() && self.dirty@[k] == p;
                assert(persistence.region_chunks(spec_region_coords(self.dirty@[k])) is None);
            }
        }
        r
    }

    /// Saves every changed chunk held in memory to its open region, then makes the contents
    /// of every open region's file. A changed chunk that is no longer held stops being
    /// changed; one that cannot be saved stays changed.
    pub fn save_dirty_chunks(&mut self, persistence: &mut PersistenceLayer) -> (r: SaveReport)
        requires
            old(self).wf(),
            old(persistence).wf(),
        ensures
            final(self).wf(),
            final(persistence).wf(),
            final(self).loaded_view() == old(self).loaded_view(),
            final(self).spec_tick() == old(self).spec_tick(),
            final(self).spec_registry_len() == old(self).spec_registry_len(),
            final(persistence).spec_world_dir() == old(persistence).spec_world_dir(),
            forall|c: (i32, i32)| (#[trigger] final(persistence).region_chunks(c)) is Some <==> old(persistence).region_chunks(c) is Some,
            forall|p: ChunkPos|
                old(self).dirty_set().contains(p) && old(self).loaded_view().dom().contains(p)
                    && old(persistence).region_chunks(spec_region_coords(p)) is Some
                    ==> #[trigger] final(persistence).stored_chunk(p) == Some(old(self).loaded_view()[p]),
            forall|p: ChunkPos|
                !(old(self).dirty_set().contains(p) && old(self).loaded_view().dom().contains(p))
                    ==> #[trigger] final(persistence).stored_chunk(p) == old(persistence).stored_chunk(p),
            final(self).dirty_set() == r.failed@.map_values(|f: (ChunkPos, PersistError)| f.0).to_set(),
            forall|i: int| 0 <= i < r.failed@.len() ==> {
                let p = (#[trigger] r.failed@[i]).0;
                &&& old(self).dirty_set().contains(p)
                &&& old(self).loaded_view().dom().contains(p)
                &&& (old(persistence).region_chunks(spec_region_coords(p)) is None
                    ==> is_missing_region(r.failed@[i].1, spec_region_coords(p)))
                &&& (old(persistence).region_chunks(spec_region_coords(p)) is Some
                    ==> is_compress_failure(r.failed@[i].1))
            },
            forall|p: ChunkPos|
                old(self).dirty_set().contains(p) && old(self).loaded_view().dom().contains(p)
                    && old(persistence).region_chunks(spec_region_coords(p)) is None
                    ==> #[trigger] final(self).dirty_set().contains(p),
            r.flushed matches Ok(reqs) && reqs@.len() == final(persistence).region_count() && forall|i: int|
                0 <= i < reqs@.len() ==> (#[trigger] reqs@[i]).path@ == spec_region_path(
                    final(persistence).spec_world_dir(),
                    final(persistence).region_at(i).0,
                ) && reqs@[i].bytes@ == region_file_bytes(stored_of(final(persistence).region_at(i).1)),
            forall|j: int| 0 <= j < r.writes@.len() ==> saved_write(
                #[trigger] r.writes@[j],
                old(self).dirty_set(),
                old(self).loaded_view(),
                *old(persistence),
            ),
            forall|p: ChunkPos|
                old(self).dirty_set().contains(p) && old(self).loaded_view().dom().contains(p)
                    && old(persistence).region_chunks(spec_region_coords(p)) is Some
                    ==> exists|j: int| 0 <= j < r.writes@.len() && (#[trigger] r.writes@[j]).0 == p,
    {
        proof {
            self.lemma_wf();
        }
        let ghost old_dirty = self.dirty@;
        let ghost loaded = self.loaded_view();
        let mut writes: Vec<(ChunkPos, FlushRequest)> = Vec::new();
        let mut failed: Vec<(ChunkPos, PersistError)> = Vec::new();
        let mut i: usize = 0;
        while i < self.dirty.len()
            invariant
                self.wf(),
                persistence.wf(),
                self.dirty@ == old_dirty,
                old_dirty.no_duplicates(),
                self.loaded_view() == loaded,
                loaded == old(self).loaded_view(),
                old_dirty.to_set() == old(self).dirty_set(),
                forall|p: ChunkPos| #[trigger] loaded.dom().contains(p) ==> loaded[p].len() == CHUNK_VOLUME,
                i <= old_dirty.len(),
                persistence.spec_world_dir() == old(persistence).spec_world_dir(),
                forall|c: (i32, i32)| (#[trigger] persistence.region_chunks(c)) is Some <==> old(persistence).region_chunks(c) is Some,
                forall|k: int|
                    0 <= k < i && loaded.dom().contains(old_dirty[k])
                        && old(persistence).region_chunks(spec_region_coords(old_dirty[k])) is Some
                        ==> #[trigger] persistence.stored_chunk(old_dirty[k]) == Some(loaded[old_dirty[k]]),
                forall|p: ChunkPos|
                    !(old_dirty.subrange(0, i as int).contains(p) && loaded.dom().contains(p))
                        ==> #[trigger] persistence.stored_chunk(p) == old(persistence).stored_chunk(p),
                forall|k: int| 0 <= k < failed@.len() ==> {
                    let p = (#[trigger] failed@[k]).0;
                    &&& old_dirty.subrange(0, i as int).contains(p)
                    &&& loaded.dom().contains(p)
                    &&& (old(persistence).region_chunks(spec_region_coords(p)) is None
                        ==> is_missing_region(failed@[k].1, spec_region_coords(p)))
                    &&& (old(persistence).region_chunks(spec_region_coords(p)) is Some
                        ==> is_compress_failure(failed@[k].1))
                },
                failed@.map_values(|f: (ChunkPos, PersistError)| f.0).no_duplicates(),
                forall|k: int|
                    0 <= k < i && loaded.dom().contains(old_dirty[k])
                        && old(persistence).region_chunks(spec_region_coords(old_dirty[k])) is None
                        ==> failed@.map_values(|f: (ChunkPos, PersistError)| f.0).contains(#[trigger] old_dirty[k]),
                forall|j: int| 0 <= j < writes@.len() ==> saved_write(
                    #[trigger] writes@[j],
                    old(self).dirty_set(),
                    loaded,
                    *old(persistence),
                ),
                forall|k: int|
                    0 <= k < i && loaded.dom().contains(old_dirty[k])
                        && old(persistence).region_chunks(spec_region_coords(old_dirty[k])) is Some
                        ==> exists|j: int| 0 <= j < writes@.len() && (#[trigger] writes@[j]).0 == old_dirty[k],
            decreases old_dirty.len() - i,
        {
            let pos = self.dirty[i];
            let ghost prefix = old_dirty.subrange(0, i as int);
            let ghost next_prefix = old_dirty.subrange(0, i + 1);
            assert(next_prefix =~= prefix.push(pos));
            assert forall|a: ChunkPos| #[trigger] next_prefix.contains(a) <==> (prefix.contains(a) || a == pos) by {
                lemma_push_contains(prefix, pos, a);
            }
            assert(!prefix.contains(pos)) by {
                if prefix.contains(pos) {
                    let k = choose|k: int| 0 <= k < prefix.len() && prefix[k] == pos;
                    assert(old_dirty[k] == old_dirty[i as int]);
                }
            }
            match self.loaded.load_chunk(pos) {
                None => {},
                Some(chunk) => {
                    let ghost before_failed = failed@.map_values(|f: (ChunkPos, PersistError)| f.0);
                    let ghost before_writes = writes@;
                    match persistence.save_chunk(pos, &chunk) {
                        Ok(req) => {
                            proof {
                                let c = spec_region_coords(pos);
                                persistence.lemma_region_entries(c);
                                let e = persistence.region_entries(c)->Some_0;
                                assert(map_of(e).dom().contains(pos) && map_of(e)[pos] == loaded[pos]);
                                assert(old_dirty.contains(pos));
                            }
                            writes.push((pos, req));
                            proof {
                                assert forall|j: int| 0 <= j < writes@.len() implies saved_write(
                                    #[trigger] writes@[j],
                                    old(self).dirty_set(),
                                    loaded,
                                    *old(persistence),
                                ) by {
                                    if j < before_writes.len() {
                                        assert(writes@[j] == before_writes[j]);
                                    }
                                }
                            }
                        },
                        Err(e) => {
                            failed.push((pos, e));
                            proof {
                                let after = failed@.map_values(|f: (ChunkPos, PersistError)| f.0);
                                assert(after =~= before_failed.push(pos));
                                assert(!before_failed.contains(pos)) by {
                                    if before_failed.contains(pos) {
                                        let k = choose|k: int| 0 <= k < before_failed.len() && before_failed[k] == pos;
                                        assert(failed@[k].0 == pos);
                                    }
                                }
                            }
                        },
                    }
                    proof {
                        assert forall|k: int|
                            0 <= k < i + 1 && loaded.dom().contains(old_dirty[k])
                                && old(persistence).region_chunks(spec_region_coords(old_dirty[k])) is Some
                                implies exists|j: int| 0 <= j < writes@.len() && (#[trigger] writes@[j]).0 == old_dirty[k] by {
                            if k < i {
                                let j = choose|j: int| 0 <= j < before_writes.len() && (#[trigger] before_writes[j]).0 == old_dirty[k];
                                assert(writes@[j] == before_writes[j]);
                            } else {
                                assert(writes@[writes@.len() - 1].0 == pos);
                            }
                        }
                        let after = failed@.map_values(|f: (ChunkPos, PersistError)| f.0);
                        assert forall|k: int|
                            0 <= k < i + 1 && loaded.dom().contains(old_dirty[k])
                                && old(persistence).region_chunks(spec_region_coords(old_dirty[k])) is None
                                implies after.contains(#[trigger] old_dirty[k]) by {
                            if k < i {
                                let j = choose|j: int| 0 <= j < before_failed.len() && before_failed[j] == old_dirty[k];
                                assert(after[j] == before_failed[j]);
                            } else {
                                assert(after[after.len() - 1] == pos);
                            }
                        }
                    }
                },
            }
            i += 1;
        }
        assert(old_dirty.subrange(0, i as int) =~= old_dirty);
        let mut kept: Vec<ChunkPos> = Vec::new();
        let mut k: usize = 0;
        while k < failed.len()
            invariant
                k <= failed@.len(),
                kept@ == failed@.map_values(|f: (ChunkPos, PersistError)| f.0).subrange(0, k as int),
            decreases failed@.len() - k,
        {
            kept.push(failed[k].0);
            k += 1;
            assert(kept@ =~= failed@.map_values(|f: (ChunkPos, PersistError)| f.0).subrange(0, k as int));
        }
        assert(kept@ =~= failed@.map_values(|f: (ChunkPos, PersistError)| f.0));
        self.dirty = kept;
        let flushed = persistence.flush_all();
        proof {
            assert forall|p: ChunkPos|
                old(self).dirty_set().contains(p) && old(self).loaded_view().dom().contains(p)
                    && old(persistence).region_chunks(spec_region_coords(p)) is Some
                    implies #[trigger] persistence.stored_chunk(p) == Some(old(self).loaded_view()[p]) by {
                assert(old_dirty.contains(p));
                let k = choose|k: int| 0 <= k < old_dirty.len() && old_dirty[k] == p;
                assert(persistence.stored_chunk(old_dirty[k]) == Some(loaded[old_dirty[k]]));
            }
            assert forall|p: ChunkPos|
                old(self).dirty_set().contains(p) && old(self).loaded_view().dom().contains(p)
                    && old(persistence).region_chunks(spec_region_coords(p)) is None
                    implies #[trigger] self.dirty_set().contains(p) by {
                assert(old_dirty.contains(p));
                let k = choose|k: int| 0 <= k < old_dirty.len() && old_dirty[k] == p;
                assert(failed@.map_values(|f: (ChunkPos, PersistError)| f.0).contains(old_dirty[k]));
            }
        }
        let ghost ws = writes@;
        let report = SaveReport { writes, failed, flushed };
        proof {
            assert(report.writes@ == ws);
            assert forall|p: ChunkPos|
                old(self).dirty_set().contains(p) && old(self).loaded_view().dom().contains(p)
                    && old(persistence).region_chunks(spec_region_coords(p)) is Some
                    implies exists|j: int| 0 <= j < report.writes@.len() && (#[trigger] report.writes@[j]).0 == p by {
                assert(old_dirty.contains(p));
                let k = choose|k: int| 0 <= k < old_dirty.len() && old_dirty[k] == p;
                assert(loaded.dom().contains(old_dirty[k]));
                let j = choose|j: int| 0 <= j < ws.len() && (#[trigger] ws[j]).0 == old_dirty[k];
                assert(report.writes@[j] == ws[j]);
            }
        }
        report
    }
}

} // verus!
