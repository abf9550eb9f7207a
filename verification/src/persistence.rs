//! The world's region files on disk: which region holds a chunk, where its file lives, and
//! the cache of open regions that chunks are loaded from and saved to.

use vstd::prelude::*;
use crate::coords::ChunkPos;
use crate::chunk::{BlockId, ChunkData};
use crate::region::{RegionFile, RegionError, RegionFailure, region_failure, region_file_bytes, stored_of};
use crate::text::{push_signed_decimal, signed_decimal};
use crate::chunk_store::map_of;

verus! {

/// Width of a region in chunks, along x and along z.
pub const REGION_SIZE_CHUNKS: i32 = 16;

/// The region that holds a chunk: its x and z divided by 16, rounded down.
pub open spec fn spec_region_coords(pos: ChunkPos) -> (i32, i32) {
    ((pos.x as int / 16) as i32, (pos.z as int / 16) as i32)
}

/// `base` joined with `part` as a relative path: a `/` goes between them unless `base` is
/// empty or already ends in one.
pub open spec fn path_join(base: Seq<char>, part: Seq<char>) -> Seq<char> {
    if base.len() > 0 && base.last() != '/' {
        base + seq!['/'] + part
    } else {
        base + part
    }
}

/// The file name of a region: `r.<x>.<z>.vsr`.
pub open spec fn region_file_name(coords: (i32, i32)) -> Seq<char> {
    "r."@ + signed_decimal(coords.0 as int) + "."@ + signed_decimal(coords.1 as int) + ".vsr"@
}

/// The path of a region's file under the world directory.
pub open spec fn spec_region_path(world_dir: Seq<char>, coords: (i32, i32)) -> Seq<char> {
    path_join(path_join(world_dir, "region"@), region_file_name(coords))
}

/// A region that is not open yet; its file must be read and handed to `insert_region`.
#[derive(Debug)]
pub struct RegionMissing {
    pub coords: (i32, i32),
    pub path: String,
}

/// Bytes to write to a region's file.
#[derive(Debug)]
pub struct FlushRequest {
    pub path: String,
    pub bytes: Vec<u8>,
}

/// Why a chunk could not be saved.
#[derive(Debug)]
pub enum PersistError {
    RegionMissing(RegionMissing),
    Region(RegionError),
}

fn floor_div16(v: i32) -> (r: i32)
    ensures
        r as int == v as int / 16,
{
    let shifted: u64 = (v as i64 + 2147483648i64) as u64;
    let q: u64 = shifted / 16;
    assert(shifted as int == v as int + 134217728 * 16);
    assert(v as int == (q as int - 134217728) * 16 + (shifted % 16) as int);
    ((q as i64) - 134217728i64) as i32
}

fn push_path_part(path: &mut String, part: &str)
    ensures
        final(path)@ == path_join(old(path)@, part@),
{
    let chars = crate::text::chars_of(path.as_str());
    let needs_sep = chars.len() > 0 && chars[chars.len() - 1] != '/';
    if needs_sep {
        path.push('/');
    }
    path.push_str(part);
}

/// Open regions by their coordinates, under one world directory.
pub struct PersistenceLayer {
    world_dir: String,
    regions: Vec<((i32, i32), RegionFile)>,
}

impl PersistenceLayer {
    pub closed spec fn spec_world_dir(&self) -> Seq<char> {
        self.world_dir@
    }

    /// Number of open regions.
    pub closed spec fn region_count(&self) -> nat {
        self.regions@.len()
    }

    /// The coordinates and held chunks of the `i`-th open region.
    pub closed spec fn region_at(&self, i: int) -> ((i32, i32), Seq<(ChunkPos, Seq<BlockId>)>) {
        (self.regions@[i].0, self.regions@[i].1.entries())
    }

    /// Index of the open region at `coords`.
    pub closed spec fn region_index(&self, coords: (i32, i32)) -> Option<int> {
        if exists|i: int| 0 <= i < self.regions@.len() && #[trigger] self.regions@[i].0 == coords {
            Some(choose|i: int| 0 <= i < self.regions@.len() && #[trigger] self.regions@[i].0 == coords)
        } else {
            None
        }
    }

    /// The entries of the open region at `coords`, in its order, if it is open.
    pub closed spec fn region_entries(&self, coords: (i32, i32)) -> Option<Seq<(ChunkPos, Seq<BlockId>)>> {
        match self.region_index(coords) {
            Some(i) => Some(self.regions@[i].1.entries()),
            None => None,
        }
    }

    /// An open region's entries list exactly its chunks.
    pub proof fn lemma_region_entries(&self, coords: (i32, i32))
        requires
            self.wf(),
        ensures
            self.region_entries(coords) is Some <==> self.region_chunks(coords) is Some,
            self.region_entries(coords) is Some ==> map_of(self.region_entries(coords)->Some_0)
                == self.region_chunks(coords)->Some_0,
    {
        if let Some(i) = self.region_index(coords) {
            assert(self.regions@[i].1.wf());
            self.regions@[i].1.lemma_wf();
        }
    }

    /// The chunks of the open region at `coords`, if it is open.
    pub closed spec fn region_chunks(&self, coords: (i32, i32)) -> Option<Map<ChunkPos, Seq<BlockId>>> {
        match self.region_index(coords) {
            Some(i) => Some(self.regions@[i].1@),
            None => None,
        }
    }

    /// The open region at `coords` is well-formed and its file path is the region's path.
    pub closed spec fn wf(&self) -> bool {
        &&& forall|i: int, j: int|
            0 <= i < self.regions@.len() && 0 <= j < self.regions@.len() && i != j
                ==> self.regions@[i].0 != self.regions@[j].0
        &&& forall|i: int| 0 <= i < self.regions@.len() ==> (#[trigger] self.regions@[i]).1.wf()
            && self.regions@[i].1.spec_path() == spec_region_path(self.world_dir@, self.regions@[i].0)
    }

    /// A layer with no open region; the caller creates the world directory.
    pub fn open(world_dir: String) -> (r: PersistenceLayer)
        ensures
            r.wf(),
            r.spec_world_dir() == world_dir@,
            forall|c: (i32, i32)| r.region_chunks(c) is None,
    {
        PersistenceLayer { world_dir, regions: Vec::new() }
    }

    /// The region that holds a chunk.
    pub fn region_coords(pos: ChunkPos) -> (r: (i32, i32))
        ensures
            r == spec_region_coords(pos),
    {
        (floor_div16(pos.x), floor_div16(pos.z))
    }

    /// The path of a region's file: `<world>/region/r.<x>.<z>.vsr`.
    pub fn region_path(&self, coords: (i32, i32)) -> (r: String)
        ensures
            r@ == spec_region_path(self.spec_world_dir(), coords),
    {
        let mut path = self.world_dir.clone();
        push_path_part(&mut path, "region");
        let mut name = String::new();
        name.push_str("r.");
        push_signed_decimal(&mut name, coords.0 as i64);
        name.push_str(".");
        push_signed_decimal(&mut name, coords.1 as i64);
        name.push_str(".vsr");
        push_path_part(&mut path, name.as_str());
        path
    }

    fn find(&self, coords: (i32, i32)) -> (r: Option<usize>)
        ensures
            r matches Some(i) ==> i < self.regions@.len() && self.regions@[i as int].0 == coords,
            r is None ==> forall|i: int| 0 <= i < self.regions@.len() ==> (#[trigger] self.regions@[i]).0 != coords,
    {
        let mut i: usize = 0;
        while i < self.regions.len()
            invariant
                i <= self.regions@.len(),
                forall|k: int| 0 <= k < i ==> (#[trigger] self.regions@[k]).0 != coords,
            decreases self.regions@.len() - i,
        {
            if self.regions[i].0.0 == coords.0 && self.regions[i].0.1 == coords.1 {
                return Some(i);
            }
            i += 1;
        }
        None
    }

    proof fn lemma_index(&self, coords: (i32, i32), i: int)
        requires
            self.wf(),
            0 <= i < self.regions@.len(),
            self.regions@[i].0 == coords,
        ensures
            self.region_index(coords) == Some(i),
    {
    }

    /// Whether the region at `coords` is open.
    pub fn has_region(&self, coords: (i32, i32)) -> (r: bool)
        requires
            self.wf(),
        ensures
            r == self.region_chunks(coords) is Some,
    {
        match self.find(coords) {
            Some(i) => {
                proof { self.lemma_index(coords, i as int); }
                true
            },
            None => false,
        }
    }

    /// Adds an opened region; a region already open at `coords` is kept.
    pub fn insert_region(&mut self, coords: (i32, i32), region: RegionFile)
        requires
            old(self).wf(),
            region.wf(),
            region.spec_path() == spec_region_path(old(self).spec_world_dir(), coords),
        ensures
            final(self).wf(),
            final(self).spec_world_dir() == old(self).spec_world_dir(),
            final(self).region_chunks(coords) == if old(self).region_chunks(coords) is Some {
                old(self).region_chunks(coords)
            } else {
                Some(region@)
            },
            forall|c: (i32, i32)| c != coords ==> final(self).region_chunks(c) == old(self).region_chunks(c),
    {
        match self.find(coords) {
            Some(i) => {
                proof { self.lemma_index(coords, i as int); }
            },
            None => {
                let ghost before = self.regions@;
                self.regions.push((coords, region));
                proof {
                    assert(self.regions@ == before.push((coords, region)));
                    self.lemma_index(coords, before.len() as int);
                    assert forall|c: (i32, i32)| c != coords implies self.region_chunks(c) == old(self).region_chunks(c) by {
                        if let Some(k) = old(self).region_index(c) {
                            assert(self.regions@[k] == before[k]);
                            self.lemma_index(c, k);
                        } else {
                            if exists|k: int| 0 <= k < self.regions@.len() && #[trigger] self.regions@[k].0 == c {
                                let k = choose|k: int| 0 <= k < self.regions@.len() && #[trigger] self.regions@[k].0 == c;
                                assert(before[k].0 == c);
                            }
                        }
                    }
                }
            },
        }
    }

    /// The chunk stored at a position, when its region is open.
    pub open spec fn stored_chunk(&self, pos: ChunkPos) -> Option<Seq<BlockId>> {
        match self.region_chunks(spec_region_coords(pos)) {
            Some(m) => if m.dom().contains(pos) {
                Some(m[pos])
            } else {
                None
            },
            None => None,
        }
    }

    /// The chunk at a position from its open region; when the region is not open, what to
    /// read first.
    pub fn load_chunk(&self, pos: ChunkPos) -> (r: Result<Option<ChunkData>, RegionMissing>)
        requires
            self.wf(),
        ensures
            self.region_chunks(spec_region_coords(pos)) is None <==> r is Err,
            r matches Err(m) ==> m.coords == spec_region_coords(pos) && m.path@ == spec_region_path(
                self.spec_world_dir(),
                spec_region_coords(pos),
            ),
            r matches Ok(c) ==> match c {
                Some(chunk) => chunk.wf() && self.stored_chunk(pos) == Some(chunk@),
                None => self.stored_chunk(pos) is None,
            },
    {
        let coords = Self::region_coords(pos);
        match self.find(coords) {
            Some(i) => {
                proof {
                    self.lemma_index(coords, i as int);
                    assert(self.regions@[i as int].1.wf());
                }
                Ok(self.regions[i].1.load_chunk(pos))
            },
            None => Err(RegionMissing { coords, path: self.region_path(coords) }),
        }
    }

    /// Stores a chunk in its open region and gives the region's new file contents to write.
    /// Afterwards the chunk reads back from its position and every other position is unchanged.
    pub fn save_chunk(&mut self, pos: ChunkPos, chunk: &ChunkData) -> (r: Result<FlushRequest, PersistError>)
        requires
            old(self).wf(),
            chunk.wf(),
        ensures
            final(self).wf(),
            final(self).spec_world_dir() == old(self).spec_world_dir(),
            old(self).region_chunks(spec_region_coords(pos)) is None ==> (r is Err && *final(self) == *old(self)
                && (r->Err_0 matches PersistError::RegionMissing(m) && m.coords == spec_region_coords(pos)
                && m.path@ == spec_region_path(old(self).spec_world_dir(), spec_region_coords(pos)))),
            old(self).region_chunks(spec_region_coords(pos)) is Some ==> {
                &&& final(self).stored_chunk(pos) == Some(chunk@)
                &&& final(self).region_chunks(spec_region_coords(pos)) == Some(
                    old(self).region_chunks(spec_region_coords(pos))->Some_0.insert(pos, chunk@),
                )
                &&& final(self).region_entries(spec_region_coords(pos)) is Some
                &&& r matches Ok(req) && req.path@ == spec_region_path(
                    old(self).spec_world_dir(),
                    spec_region_coords(pos),
                ) && req.bytes@ == region_file_bytes(
                    stored_of(final(self).region_entries(spec_region_coords(pos))->Some_0),
                )
            },
            forall|c: (i32, i32)| c != spec_region_coords(pos) ==> final(self).region_chunks(c) == old(self).region_chunks(c),
            forall|p: ChunkPos| p != pos ==> final(self).stored_chunk(p) == old(self).stored_chunk(p),
    {
        let coords = Self::region_coords(pos);
        match self.find(coords) {
            Some(i) => {
                proof { self.lemma_index(coords, i as int); }
                let ghost before = self.regions@;
                let mut entry = self.regions.remove(i);
                entry.1.save_chunk(pos, chunk);
                let flushed = entry.1.flush();
                let path = self.region_path(coords);
                self.regions.insert(i, entry);
                proof {
                    assert(self.regions@ =~= before.update(i as int, entry));
                    self.lemma_index(coords, i as int);
                    assert forall|c: (i32, i32)| c != coords implies self.region_chunks(c) == old(self).region_chunks(c) by {
                        if let Some(k) = old(self).region_index(c) {
                            assert(k != i);
                            assert(self.regions@[k] == before[k]);
                            self.lemma_index(c, k);
                        } else {
                            if exists|k: int| 0 <= k < self.regions@.len() && #[trigger] self.regions@[k].0 == c {
                                let k = choose|k: int| 0 <= k < self.regions@.len() && #[trigger] self.regions@[k].0 == c;
                                assert(before[k].0 == c);
                            }
                        }
                    }
                    assert forall|p: ChunkPos| p != pos implies self.stored_chunk(p) == old(self).stored_chunk(p) by {
                        if spec_region_coords(p) != coords {
                        } else {
                        }
                    }
                }
                match flushed {
                    Ok(bytes) => Ok(FlushRequest { path, bytes }),
                    Err(e) => Err(PersistError::Region(e)),
                }
            },
            None => Err(PersistError::RegionMissing(RegionMissing { coords, path: self.region_path(coords) })),
        }
    }

    /// The contents of every open region's file, in the order the regions were opened.
    pub fn flush_all(&self) -> (r: Result<Vec<FlushRequest>, RegionError>)
        requires
            self.wf(),
        ensures
            r is Ok,
            r matches Ok(reqs) ==> reqs@.len() == self.region_count() && forall|i: int|
                0 <= i < reqs@.len() ==> (#[trigger] reqs@[i]).path@ == spec_region_path(
                    self.spec_world_dir(),
                    self.region_at(i).0,
                ) && reqs@[i].bytes@ == region_file_bytes(stored_of(self.region_at(i).1)),
    {
        let mut out: Vec<FlushRequest> = Vec::new();
        let mut i: usize = 0;
        while i < self.regions.len()
            invariant
                self.wf(),
                i <= self.regions@.len(),
                out@.len() == i,
                forall|k: int| 0 <= k < i ==> (#[trigger] out@[k]).path@ == spec_region_path(
                    self.world_dir@,
                    self.regions@[k].0,
                ) && out@[k].bytes@ == region_file_bytes(stored_of(self.regions@[k].1.entries())),
            decreases self.regions@.len() - i,
        {
            assert(self.regions@[i as int].1.wf());
            let bytes = match self.regions[i].1.flush() {
                Ok(b) => b,
                Err(e) => return Err(e),
            };
            let path = self.regions[i].1.path().clone();
            out.push(FlushRequest { path, bytes });
            i += 1;
        }
        Ok(out)
    }
}

} // verus!
